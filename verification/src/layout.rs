use vstd::prelude::*;
use crate::mesh::Mesh;
use crate::scene::ModelInfo;

verus! {

/// The number of texture slots in the texture array that the textured
/// pipeline samples; slot 0 always holds the default texture.
pub const TEXTURE_SLOTS: usize = 1024;

/// One entry of the instance buffer: the identity transform with the default
/// texture, or the transform of the mesh in object slot `mesh_index` drawn
/// with texture slot `texture`.
#[derive(Clone, Copy, Debug, PartialEq, Eq, Structural)]
pub enum Instance {
    Identity,
    Mesh { mesh_index: usize, texture: u32 },
}

/// Whether texture slot `id` of the store holds a texture.
pub open spec fn texture_exists<X>(textures: Seq<Option<X>>, id: u32) -> bool {
    (id as int) < textures.len() && textures[id as int] is Some
}

/// The distinct stored textures that the textured meshes among the first `n`
/// objects use, in order of first use. The texture that comes `k`-th here is
/// drawn from texture slot `k + 1`.
pub open spec fn drawn_textures<V, T, X>(
    objects: Seq<Option<Mesh<V, T>>>,
    textures: Seq<Option<X>>,
    n: nat,
) -> Seq<u32>
    decreases n,
{
    if n == 0 {
        Seq::empty()
    } else {
        let prev = drawn_textures(objects, textures, (n - 1) as nat);
        match objects[n - 1] {
            Some(m) => match m.texture_id {
                Some(id) => if !prev.contains(id) && texture_exists(textures, id) {
                    prev.push(id)
                } else {
                    prev
                },
                None => prev,
            },
            None => prev,
        }
    }
}

/// The texture slot of texture `id` given the drawn textures `order`: one
/// more than its position there, or 0 (the default texture) when it is not
/// drawn.
pub open spec fn slot_of(order: Seq<u32>, id: u32) -> u32
    decreases order.len(),
{
    if order.len() == 0 {
        0
    } else if order.last() == id {
        order.len() as u32
    } else {
        slot_of(order.drop_last(), id)
    }
}

/// The texture array's slots: slot `s` shows the `s`-th drawn texture, and
/// every other slot the default texture (`None`).
pub open spec fn texture_views(order: Seq<u32>) -> Seq<Option<u32>> {
    Seq::new(
        TEXTURE_SLOTS as nat,
        |s: int|
            if 1 <= s <= order.len() {
                Some(order[s - 1])
            } else {
                None
            },
    )
}

/// The shared buffers of both kinds and the draw lists, as they stand after
/// the first `n` objects.
pub struct Layout<V> {
    pub textured: Seq<ModelInfo>,
    pub colored: Seq<ModelInfo>,
    pub verts_textured: Seq<V>,
    pub inds_textured: Seq<u32>,
    pub verts_colored: Seq<V>,
    pub inds_colored: Seq<u32>,
}

/// The layout of the first `n` objects: each stored mesh, in object order,
/// is appended to the buffers of its kind, and its draw entry records where
/// its indices and vertices start and which instance (counted within its
/// kind) is its own.
pub open spec fn layout<V, T, X>(
    objects: Seq<Option<Mesh<V, T>>>,
    textures: Seq<Option<X>>,
    n: nat,
) -> Layout<V>
    decreases n,
{
    if n == 0 {
        Layout {
            textured: Seq::empty(),
            colored: Seq::empty(),
            verts_textured: Seq::empty(),
            inds_textured: Seq::empty(),
            verts_colored: Seq::empty(),
            inds_colored: Seq::empty(),
        }
    } else {
        let acc = layout(objects, textures, (n - 1) as nat);
        match objects[n - 1] {
            None => acc,
            Some(m) => match m.texture_id {
                Some(id) => Layout {
                    textured: acc.textured.push(
                        ModelInfo {
                            mesh_index: (n - 1) as usize,
                            texture_index: slot_of(drawn_textures(objects, textures, n), id),
                            index_range: std::ops::Range {
                                start: acc.inds_textured.len() as u32,
                                end: (acc.inds_textured.len() + m.indices@.len()) as u32,
                            },
                            base_vertex: acc.verts_textured.len() as usize,
                            index_transform: acc.textured.len() as u32,
                        },
                    ),
                    verts_textured: acc.verts_textured + m.vertices@,
                    inds_textured: acc.inds_textured + m.indices@,
                    ..acc
                },
                None => Layout {
                    colored: acc.colored.push(
                        ModelInfo {
                            mesh_index: (n - 1) as usize,
                            texture_index: 0,
                            index_range: std::ops::Range {
                                start: acc.inds_colored.len() as u32,
                                end: (acc.inds_colored.len() + m.indices@.len()) as u32,
                            },
                            base_vertex: acc.verts_colored.len() as usize,
                            index_transform: acc.colored.len() as u32,
                        },
                    ),
                    verts_colored: acc.verts_colored + m.vertices@,
                    inds_colored: acc.inds_colored + m.indices@,
                    ..acc
                },
            },
        }
    }
}

/// The colored draw list: the colored instances follow all the textured
/// ones in the instance buffer, so each colored entry's instance is shifted
/// by the number of textured entries.
pub open spec fn colored_draw_list<V>(l: Layout<V>) -> Seq<ModelInfo> {
    l.colored.map_values(
        |mi: ModelInfo|
            ModelInfo { index_transform: (mi.index_transform + l.textured.len()) as u32, ..mi },
    )
}

/// The instance that a draw entry stands for.
pub open spec fn instance_of(mi: ModelInfo) -> Instance {
    Instance::Mesh { mesh_index: mi.mesh_index, texture: mi.texture_index }
}

/// The instance buffer for the draw entries `models`: one instance per
/// entry, in order, or the single identity instance when there is no entry.
pub open spec fn model_instances(models: Seq<ModelInfo>) -> Seq<Instance> {
    if models.len() == 0 {
        seq![Instance::Identity]
    } else {
        models.map_values(|mi: ModelInfo| instance_of(mi))
    }
}

/// Whether the object slot that a draw entry names still holds a mesh.
pub open spec fn entry_is_live<V, T>(objects: Seq<Option<Mesh<V, T>>>, mi: ModelInfo) -> bool {
    (mi.mesh_index as int) < objects.len() && objects[mi.mesh_index as int] is Some
}

/// The instances of those of the first `n` draw entries whose object slot
/// still holds a mesh, in order.
pub open spec fn live_instances<V, T>(
    objects: Seq<Option<Mesh<V, T>>>,
    models: Seq<ModelInfo>,
    n: nat,
) -> Seq<Instance>
    decreases n,
{
    if n == 0 {
        Seq::empty()
    } else {
        let prev = live_instances(objects, models, (n - 1) as nat);
        if entry_is_live(objects, models[n - 1]) {
            prev.push(instance_of(models[n - 1]))
        } else {
            prev
        }
    }
}

/// The instance buffer rebuilt from the draw entries `models`: the live
/// entries' instances, or the single identity instance when none is live.
pub open spec fn transform_instances<V, T>(
    objects: Seq<Option<Mesh<V, T>>>,
    models: Seq<ModelInfo>,
) -> Seq<Instance> {
    let live = live_instances(objects, models, models.len());
    if live.len() == 0 {
        seq![Instance::Identity]
    } else {
        live
    }
}

/// The number of indices of an object slot's mesh (0 for an empty slot).
pub open spec fn slot_index_count<V, T>(o: Option<Mesh<V, T>>) -> nat {
    match o {
        Some(m) => m.indices@.len(),
        None => 0,
    }
}

/// The number of vertices of an object slot's mesh (0 for an empty slot).
pub open spec fn slot_vertex_count<V, T>(o: Option<Mesh<V, T>>) -> nat {
    match o {
        Some(m) => m.vertices@.len(),
        None => 0,
    }
}

/// The number of indices of the meshes among the first `n` objects.
pub open spec fn total_indices<V, T>(objects: Seq<Option<Mesh<V, T>>>, n: nat) -> nat
    decreases n,
{
    if n == 0 {
        0
    } else {
        total_indices(objects, (n - 1) as nat) + slot_index_count(objects[n - 1])
    }
}

/// The number of vertices of the meshes among the first `n` objects.
pub open spec fn total_vertices<V, T>(objects: Seq<Option<Mesh<V, T>>>, n: nat) -> nat
    decreases n,
{
    if n == 0 {
        0
    } else {
        total_vertices(objects, (n - 1) as nat) + slot_vertex_count(objects[n - 1])
    }
}

/// The number of object slots among the first `n` that hold a mesh: the
/// number of draw entries a build makes from them.
pub open spec fn stored_count<V, T>(objects: Seq<Option<Mesh<V, T>>>, n: nat) -> nat
    decreases n,
{
    if n == 0 {
        0
    } else {
        stored_count(objects, (n - 1) as nat) + if objects[n - 1] is Some {
            1nat
        } else {
            0nat
        }
    }
}

/// Prefix totals grow with the prefix.
pub proof fn lemma_totals_monotone<V, T>(objects: Seq<Option<Mesh<V, T>>>, i: nat, n: nat)
    requires
        i <= n,
    ensures
        total_indices(objects, i) <= total_indices(objects, n),
        total_vertices(objects, i) <= total_vertices(objects, n),
        stored_count(objects, i) <= stored_count(objects, n),
    decreases n - i,
{
    if i < n {
        lemma_totals_monotone(objects, i, (n - 1) as nat);
    }
}

/// The drawn textures only grow, and never hold a texture twice.
pub proof fn lemma_drawn_grows<V, T, X>(
    objects: Seq<Option<Mesh<V, T>>>,
    textures: Seq<Option<X>>,
    i: nat,
    n: nat,
)
    requires
        i <= n,
    ensures
        drawn_textures(objects, textures, i).len() <= drawn_textures(objects, textures, n).len(),
    decreases n - i,
{
    if i < n {
        lemma_drawn_grows(objects, textures, i, (n - 1) as nat);
    }
}

/// A texture that is not drawn has the default slot.
pub proof fn lemma_slot_of_absent(order: Seq<u32>, id: u32)
    requires
        !order.contains(id),
    ensures
        slot_of(order, id) == 0,
    decreases order.len(),
{
    if order.len() > 0 {
        assert(order.drop_last().contains(id) ==> order.contains(id)) by {
            if order.drop_last().contains(id) {
                let k = choose|k: int| 0 <= k < order.drop_last().len() && order.drop_last()[k] == id;
                assert(order[k] == id);
            }
        }
        assert(order.last() != id) by {
            assert(order[order.len() - 1] == order.last());
        }
        lemma_slot_of_absent(order.drop_last(), id);
    }
}

/// Appending a texture gives it the next slot and leaves every other slot.
pub proof fn lemma_slot_of_push(order: Seq<u32>, id: u32, k: u32)
    ensures
        slot_of(order.push(id), id) == (order.len() + 1) as u32,
        k != id ==> slot_of(order.push(id), k) == slot_of(order, k),
{
    assert(order.push(id).drop_last() =~= order);
}

/// The draw entries' instance numbers count the entries of their kind, the
/// buffers hold exactly the meshes' data, and entries name objects in order.
pub proof fn lemma_layout_shape<V, T, X>(
    objects: Seq<Option<Mesh<V, T>>>,
    textures: Seq<Option<X>>,
    n: nat,
)
    requires
        n <= objects.len(),
        stored_count(objects, n) <= u32::MAX,
    ensures
        ({
            let l = layout(objects, textures, n);
            &&& forall|k: int| 0 <= k < l.textured.len() ==> #[trigger] l.textured[k].index_transform == k
            &&& forall|k: int| 0 <= k < l.colored.len() ==> #[trigger] l.colored[k].index_transform == k
            &&& forall|k: int| 0 <= k < l.colored.len() ==> #[trigger] l.colored[k].texture_index == 0
            &&& forall|k: int| 0 <= k < l.textured.len() ==> #[trigger] l.textured[k].mesh_index < n
            &&& forall|k: int| 0 <= k < l.colored.len() ==> #[trigger] l.colored[k].mesh_index < n
            &&& l.textured.len() + l.colored.len() == stored_count(objects, n)
            &&& l.inds_textured.len() + l.inds_colored.len() == total_indices(objects, n)
            &&& l.verts_textured.len() + l.verts_colored.len() == total_vertices(objects, n)
        }),
    decreases n,
{
    if n > 0 {
        lemma_layout_shape(objects, textures, (n - 1) as nat);
    }
}

/// The facts about the drawn textures that the laws rest on: no texture is
/// drawn twice, every drawn texture is stored, the drawn textures of a
/// prefix of the objects are a prefix of those of all of them, and a stored
/// texture used by a textured mesh is drawn from that mesh on.
proof fn lemma_drawn<V, T, X>(objects: Seq<Option<Mesh<V, T>>>, textures: Seq<Option<X>>, n: nat)
    requires
        n <= objects.len(),
    ensures
        ({
            let d = drawn_textures(objects, textures, n);
            &&& d.no_duplicates()
            &&& forall|j: int| 0 <= j < d.len() ==> texture_exists(textures, #[trigger] d[j])
            &&& forall|i: nat|
                i <= n ==> {
                    let p = #[trigger] drawn_textures(objects, textures, i);
                    p.len() <= d.len() && p == d.subrange(0, p.len() as int)
                }
            &&& forall|i: int|
                0 <= i < n && objects[i] is Some && objects[i].unwrap().texture_id is Some
                    && texture_exists(textures, objects[i].unwrap().texture_id.unwrap())
                    ==> #[trigger] drawn_textures(objects, textures, (i + 1) as nat).contains(
                    objects[i].unwrap().texture_id.unwrap(),
                )
        }),
    decreases n,
{
    if n > 0 {
        lemma_drawn(objects, textures, (n - 1) as nat);
        let prev = drawn_textures(objects, textures, (n - 1) as nat);
        let d = drawn_textures(objects, textures, n);
        assert forall|i: nat| i <= n implies {
            let p = #[trigger] drawn_textures(objects, textures, i);
            p.len() <= d.len() && p == d.subrange(0, p.len() as int)
        } by {
            if i == n {
                assert(d == d.subrange(0, d.len() as int));
            } else {
                let p = drawn_textures(objects, textures, i);
                assert(p == prev.subrange(0, p.len() as int));
                assert(prev == d.subrange(0, prev.len() as int));
                assert(p =~= d.subrange(0, p.len() as int));
            }
        }
        if d != prev {
            let id = d.last();
            assert(d == prev.push(id));
            assert forall|a: int, b: int| 0 <= a < b < d.len() implies d[a] != d[b] by {
                if b == d.len() - 1 {
                    assert(prev[a] == d[a]);
                    assert(prev.contains(d[a]));
                }
            }
            assert forall|j: int| 0 <= j < d.len() implies texture_exists(textures, #[trigger] d[j]) by {
                if j < prev.len() {
                    assert(d[j] == prev[j]);
                }
            }
        }
        let i = n - 1;
        if objects[i] is Some && objects[i].unwrap().texture_id is Some
            && texture_exists(textures, objects[i].unwrap().texture_id.unwrap()) {
            let id = objects[i].unwrap().texture_id.unwrap();
            if prev.contains(id) {
                assert(d == prev);
            } else {
                assert(d[prev.len() as int] == id);
            }
        }
    }
}

/// In a sequence without repeats, the slot of the element at `j` is `j + 1`.
proof fn lemma_slot_of_index(order: Seq<u32>, j: int)
    requires
        order.no_duplicates(),
        0 <= j < order.len(),
        order.len() <= u32::MAX,
    ensures
        slot_of(order, order[j]) == j + 1,
    decreases order.len(),
{
    if j < order.len() - 1 {
        let rest = order.drop_last();
        assert(order.last() != order[j]);
        assert(rest[j] == order[j]);
        assert(rest.no_duplicates()) by {
            assert forall|a: int, b: int| 0 <= a < b < rest.len() implies rest[a] != rest[b] by {
                assert(rest[a] == order[a] && rest[b] == order[b]);
            }
        }
        lemma_slot_of_index(rest, j);
    }
}

/// The facts about each draw entry that the laws rest on, proved object by
/// object.
proof fn lemma_entries<V, T, X>(objects: Seq<Option<Mesh<V, T>>>, textures: Seq<Option<X>>, n: nat)
    requires
        n <= objects.len(),
        stored_count(objects, n) <= u32::MAX,
        objects.len() <= usize::MAX,
    ensures
        ({
            let l = layout(objects, textures, n);
            &&& forall|k: int|
                0 <= k < l.textured.len() ==> {
                    let i = (#[trigger] l.textured[k]).mesh_index as int;
                    &&& 0 <= i < n
                    &&& objects[i] is Some
                    &&& objects[i].unwrap().texture_id is Some
                    &&& l.textured[k].texture_index == slot_of(
                        drawn_textures(objects, textures, (i + 1) as nat),
                        objects[i].unwrap().texture_id.unwrap(),
                    )
                    &&& l.textured[k].index_transform == k
                }
            &&& forall|k: int|
                0 <= k < l.colored.len() ==> {
                    let i = (#[trigger] l.colored[k]).mesh_index as int;
                    &&& 0 <= i < n
                    &&& objects[i] is Some
                    &&& objects[i].unwrap().texture_id is None
                    &&& l.colored[k].texture_index == 0
                    &&& l.colored[k].index_transform == k
                }
            &&& forall|a: int, b: int|
                0 <= a < b < l.textured.len() ==> (#[trigger] l.textured[a]).mesh_index
                    < (#[trigger] l.textured[b]).mesh_index
            &&& forall|a: int, b: int|
                0 <= a < b < l.colored.len() ==> (#[trigger] l.colored[a]).mesh_index
                    < (#[trigger] l.colored[b]).mesh_index
            &&& forall|i: int|
                0 <= i < n && #[trigger] objects[i] is Some && objects[i].unwrap().texture_id is Some
                    ==> exists|k: int|
                    0 <= k < l.textured.len() && (#[trigger] l.textured[k]).mesh_index == i
            &&& forall|i: int|
                0 <= i < n && #[trigger] objects[i] is Some && objects[i].unwrap().texture_id is None
                    ==> exists|k: int|
                    0 <= k < l.colored.len() && (#[trigger] l.colored[k]).mesh_index == i
            &&& l.textured.len() + l.colored.len() == stored_count(objects, n)
            &&& (total_indices(objects, n) <= u32::MAX && total_vertices(objects, n) <= usize::MAX)
                ==> {
                &&& forall|k: int|
                    0 <= k < l.textured.len() ==> {
                        let mi = #[trigger] l.textured[k];
                        let m = objects[mi.mesh_index as int].unwrap();
                        &&& mi.index_range.start + m.indices@.len() == mi.index_range.end
                        &&& mi.index_range.end <= l.inds_textured.len()
                        &&& l.inds_textured.subrange(
                            mi.index_range.start as int,
                            mi.index_range.end as int,
                        ) == m.indices@
                        &&& mi.base_vertex + m.vertices@.len() <= l.verts_textured.len()
                        &&& l.verts_textured.subrange(
                            mi.base_vertex as int,
                            mi.base_vertex + m.vertices@.len(),
                        ) == m.vertices@
                    }
                &&& forall|k: int|
                    0 <= k < l.colored.len() ==> {
                        let mi = #[trigger] l.colored[k];
                        let m = objects[mi.mesh_index as int].unwrap();
                        &&& mi.index_range.start + m.indices@.len() == mi.index_range.end
                        &&& mi.index_range.end <= l.inds_colored.len()
                        &&& l.inds_colored.subrange(
                            mi.index_range.start as int,
                            mi.index_range.end as int,
                        ) == m.indices@
                        &&& mi.base_vertex + m.vertices@.len() <= l.verts_colored.len()
                        &&& l.verts_colored.subrange(
                            mi.base_vertex as int,
                            mi.base_vertex + m.vertices@.len(),
                        ) == m.vertices@
                    }
            }
        }),
    decreases n,
{
    if n > 0 {
        lemma_entries(objects, textures, (n - 1) as nat);
        lemma_layout_shape(objects, textures, (n - 1) as nat);
        lemma_totals_monotone(objects, (n - 1) as nat, n);
        let acc = layout(objects, textures, (n - 1) as nat);
        let l = layout(objects, textures, n);
        let i = n - 1;
        if objects[i] is Some {
            let m = objects[i].unwrap();
            if m.texture_id is Some {
                assert(l.colored == acc.colored);
                assert forall|k: int| 0 <= k < acc.textured.len() implies l.textured[k] == acc.textured[k] by {}
                assert(l.textured[acc.textured.len() as int].mesh_index == i);
                assert forall|j: int|
                    0 <= j < n && #[trigger] objects[j] is Some && objects[j].unwrap().texture_id is Some
                    implies exists|k: int| 0 <= k < l.textured.len() && (#[trigger] l.textured[k]).mesh_index == j by {
                    if j < i {
                        let k = choose|k: int| 0 <= k < acc.textured.len() && (#[trigger] acc.textured[k]).mesh_index == j;
                        assert(l.textured[k] == acc.textured[k]);
                    } else {
                        assert(l.textured[acc.textured.len() as int].mesh_index == j);
                    }
                }
                if total_indices(objects, n) <= u32::MAX && total_vertices(objects, n) <= usize::MAX {
                    assert forall|k: int| 0 <= k < l.textured.len() implies {
                        let mi = #[trigger] l.textured[k];
                        let m = objects[mi.mesh_index as int].unwrap();
                        &&& mi.index_range.start + m.indices@.len() == mi.index_range.end
                        &&& mi.index_range.end <= l.inds_textured.len()
                        &&& l.inds_textured.subrange(mi.index_range.start as int, mi.index_range.end as int) == m.indices@
                        &&& mi.base_vertex + m.vertices@.len() <= l.verts_textured.len()
                        &&& l.verts_textured.subrange(mi.base_vertex as int, mi.base_vertex + m.vertices@.len()) == m.vertices@
                    } by {
                        let mi = l.textured[k];
                        let mm = objects[mi.mesh_index as int].unwrap();
                        if k < acc.textured.len() {
                            assert(mi == acc.textured[k]);
                            assert(l.inds_textured.subrange(mi.index_range.start as int, mi.index_range.end as int)
                                =~= acc.inds_textured.subrange(mi.index_range.start as int, mi.index_range.end as int));
                            assert(l.verts_textured.subrange(mi.base_vertex as int, mi.base_vertex + mm.vertices@.len())
                                =~= acc.verts_textured.subrange(mi.base_vertex as int, mi.base_vertex + mm.vertices@.len()));
                        } else {
                            assert(l.inds_textured.subrange(mi.index_range.start as int, mi.index_range.end as int)
                                =~= m.indices@);
                            assert(l.verts_textured.subrange(mi.base_vertex as int, mi.base_vertex + mm.vertices@.len())
                                =~= m.vertices@);
                        }
                    }
                }
            } else {
                assert(l.textured == acc.textured);
                assert forall|k: int| 0 <= k < acc.colored.len() implies l.colored[k] == acc.colored[k] by {}
                assert(l.colored[acc.colored.len() as int].mesh_index == i);
                assert forall|j: int|
                    0 <= j < n && #[trigger] objects[j] is Some && objects[j].unwrap().texture_id is None
                    implies exists|k: int| 0 <= k < l.colored.len() && (#[trigger] l.colored[k]).mesh_index == j by {
                    if j < i {
                        let k = choose|k: int| 0 <= k < acc.colored.len() && (#[trigger] acc.colored[k]).mesh_index == j;
                        assert(l.colored[k] == acc.colored[k]);
                    } else {
                        assert(l.colored[acc.colored.len() as int].mesh_index == j);
                    }
                }
                if total_indices(objects, n) <= u32::MAX && total_vertices(objects, n) <= usize::MAX {
                    assert forall|k: int| 0 <= k < l.colored.len() implies {
                        let mi = #[trigger] l.colored[k];
                        let m = objects[mi.mesh_index as int].unwrap();
                        &&& mi.index_range.start + m.indices@.len() == mi.index_range.end
                        &&& mi.index_range.end <= l.inds_colored.len()
                        &&& l.inds_colored.subrange(mi.index_range.start as int, mi.index_range.end as int) == m.indices@
                        &&& mi.base_vertex + m.vertices@.len() <= l.verts_colored.len()
                        &&& l.verts_colored.subrange(mi.base_vertex as int, mi.base_vertex + m.vertices@.len()) == m.vertices@
                    } by {
                        let mi = l.colored[k];
                        let mm = objects[mi.mesh_index as int].unwrap();
                        if k < acc.colored.len() {
                            assert(mi == acc.colored[k]);
                            assert(l.inds_colored.subrange(mi.index_range.start as int, mi.index_range.end as int)
                                =~= acc.inds_colored.subrange(mi.index_range.start as int, mi.index_range.end as int));
                            assert(l.verts_colored.subrange(mi.base_vertex as int, mi.base_vertex + mm.vertices@.len())
                                =~= acc.verts_colored.subrange(mi.base_vertex as int, mi.base_vertex + mm.vertices@.len()));
                        } else {
                            assert(l.inds_colored.subrange(mi.index_range.start as int, mi.index_range.end as int)
                                =~= m.indices@);
                            assert(l.verts_colored.subrange(mi.base_vertex as int, mi.base_vertex + mm.vertices@.len())
                                =~= m.vertices@);
                        }
                    }
                }
            }
        } else {
            assert(l == acc);
        }
    }
}

/// Each draw entry names a stored mesh of its kind, and its index range and
/// base vertex pick out exactly that mesh's indices and vertices in the
/// buffers of its kind (when the indices are few enough for `u32` ranges).
pub proof fn law_draw_entries_cover_their_meshes<V, T, X>(
    objects: Seq<Option<Mesh<V, T>>>,
    textures: Seq<Option<X>>,
)
    requires
        objects.len() <= usize::MAX,
        stored_count(objects, objects.len()) <= u32::MAX,
        total_indices(objects, objects.len()) <= u32::MAX,
        total_vertices(objects, objects.len()) <= usize::MAX,
    ensures
        ({
            let l = layout(objects, textures, objects.len());
            &&& forall|k: int|
                0 <= k < l.textured.len() ==> {
                    let mi = #[trigger] l.textured[k];
                    let o = objects[mi.mesh_index as int];
                    &&& (mi.mesh_index as int) < objects.len()
                    &&& o is Some
                    &&& o.unwrap().texture_id is Some
                    &&& l.inds_textured.subrange(
                        mi.index_range.start as int,
                        mi.index_range.end as int,
                    ) == o.unwrap().indices@
                    &&& l.verts_textured.subrange(
                        mi.base_vertex as int,
                        mi.base_vertex + o.unwrap().vertices@.len(),
                    ) == o.unwrap().vertices@
                }
            &&& forall|k: int|
                0 <= k < colored_draw_list(l).len() ==> {
                    let mi = #[trigger] colored_draw_list(l)[k];
                    let o = objects[mi.mesh_index as int];
                    &&& (mi.mesh_index as int) < objects.len()
                    &&& o is Some
                    &&& o.unwrap().texture_id is None
                    &&& l.inds_colored.subrange(
                        mi.index_range.start as int,
                        mi.index_range.end as int,
                    ) == o.unwrap().indices@
                    &&& l.verts_colored.subrange(
                        mi.base_vertex as int,
                        mi.base_vertex + o.unwrap().vertices@.len(),
                    ) == o.unwrap().vertices@
                }
        }),
{
    let l = layout(objects, textures, objects.len());
    lemma_entries(objects, textures, objects.len());
    assert forall|k: int| 0 <= k < colored_draw_list(l).len() implies l.colored[k].mesh_index
        == #[trigger] colored_draw_list(l)[k].mesh_index && l.colored[k].index_range
        == colored_draw_list(l)[k].index_range && l.colored[k].base_vertex
        == colored_draw_list(l)[k].base_vertex by {}
    assert forall|k: int| 0 <= k < colored_draw_list(l).len() implies {
        let mi = #[trigger] colored_draw_list(l)[k];
        let o = objects[mi.mesh_index as int];
        &&& (mi.mesh_index as int) < objects.len()
        &&& o is Some
        &&& o.unwrap().texture_id is None
        &&& l.inds_colored.subrange(mi.index_range.start as int, mi.index_range.end as int)
            == o.unwrap().indices@
        &&& l.verts_colored.subrange(mi.base_vertex as int, mi.base_vertex + o.unwrap().vertices@.len())
            == o.unwrap().vertices@
    } by {
        let c = l.colored[k];
        assert(c.mesh_index == colored_draw_list(l)[k].mesh_index);
    }
}

/// Every stored mesh gets exactly one draw entry, in the list of its kind,
/// and no draw entry names an empty slot: each list names its meshes in
/// increasing object order.
pub proof fn law_every_mesh_drawn_once<V, T, X>(
    objects: Seq<Option<Mesh<V, T>>>,
    textures: Seq<Option<X>>,
)
    requires
        objects.len() <= usize::MAX,
        stored_count(objects, objects.len()) <= u32::MAX,
    ensures
        ({
            let l = layout(objects, textures, objects.len());
            let cd = colored_draw_list(l);
            &&& forall|i: int|
                0 <= i < objects.len() ==> ((#[trigger] objects[i] is Some
                    && objects[i].unwrap().texture_id is Some) <==> exists|k: int|
                    0 <= k < l.textured.len() && (#[trigger] l.textured[k]).mesh_index == i)
            &&& forall|i: int|
                0 <= i < objects.len() ==> ((#[trigger] objects[i] is Some
                    && objects[i].unwrap().texture_id is None) <==> exists|k: int|
                    0 <= k < cd.len() && (#[trigger] cd[k]).mesh_index == i)
            &&& forall|a: int, b: int|
                0 <= a < b < l.textured.len() ==> (#[trigger] l.textured[a]).mesh_index
                    < (#[trigger] l.textured[b]).mesh_index
            &&& forall|a: int, b: int|
                0 <= a < b < cd.len() ==> (#[trigger] cd[a]).mesh_index < (#[trigger] cd[b]).mesh_index
        }),
{
    let l = layout(objects, textures, objects.len());
    let cd = colored_draw_list(l);
    lemma_entries(objects, textures, objects.len());
    assert forall|k: int| 0 <= k < cd.len() implies (#[trigger] cd[k]).mesh_index
        == l.colored[k].mesh_index by {}
    assert forall|i: int| 0 <= i < objects.len() implies ((#[trigger] objects[i] is Some
        && objects[i].unwrap().texture_id is None) <==> exists|k: int|
        0 <= k < cd.len() && (#[trigger] cd[k]).mesh_index == i) by {
        if objects[i] is Some && objects[i].unwrap().texture_id is None {
            let k = choose|k: int| 0 <= k < l.colored.len() && (#[trigger] l.colored[k]).mesh_index == i;
            assert(cd[k].mesh_index == i);
        }
        if exists|k: int| 0 <= k < cd.len() && (#[trigger] cd[k]).mesh_index == i {
            let k = choose|k: int| 0 <= k < cd.len() && (#[trigger] cd[k]).mesh_index == i;
            assert(l.colored[k].mesh_index == i);
        }
    }
    assert forall|i: int| 0 <= i < objects.len() implies ((#[trigger] objects[i] is Some
        && objects[i].unwrap().texture_id is Some) <==> exists|k: int|
        0 <= k < l.textured.len() && (#[trigger] l.textured[k]).mesh_index == i) by {}
    assert forall|a: int, b: int| 0 <= a < b < cd.len() implies (#[trigger] cd[a]).mesh_index
        < (#[trigger] cd[b]).mesh_index by {
        assert(cd[a].mesh_index == l.colored[a].mesh_index);
        assert(cd[b].mesh_index == l.colored[b].mesh_index);
    }
}

/// Each drawn texture has a slot of its own that shows it, slot 0 shows the
/// default texture, and a textured mesh is drawn from the slot that shows
/// its texture, or from slot 0 when its texture is not stored.
pub proof fn law_texture_slots<V, T, X>(objects: Seq<Option<Mesh<V, T>>>, textures: Seq<Option<X>>)
    requires
        objects.len() <= usize::MAX,
        stored_count(objects, objects.len()) <= u32::MAX,
        drawn_textures(objects, textures, objects.len()).len() < TEXTURE_SLOTS,
    ensures
        ({
            let l = layout(objects, textures, objects.len());
            let d = drawn_textures(objects, textures, objects.len());
            let views = texture_views(d);
            &&& d.no_duplicates()
            &&& views[0] is None
            &&& forall|s: int|
                1 <= s <= d.len() ==> (#[trigger] views[s]) is Some && texture_exists(
                    textures,
                    views[s].unwrap(),
                )
            &&& forall|k: int|
                0 <= k < l.textured.len() ==> {
                    let mi = #[trigger] l.textured[k];
                    let id = objects[mi.mesh_index as int].unwrap().texture_id.unwrap();
                    if texture_exists(textures, id) {
                        &&& 1 <= mi.texture_index <= d.len()
                        &&& views[mi.texture_index as int] == Some(id)
                    } else {
                        mi.texture_index == 0
                    }
                }
        }),
{
    let n = objects.len();
    let l = layout(objects, textures, n);
    let d = drawn_textures(objects, textures, n);
    lemma_entries(objects, textures, n);
    lemma_drawn(objects, textures, n);
    assert forall|k: int| 0 <= k < l.textured.len() implies {
        let mi = #[trigger] l.textured[k];
        let id = objects[mi.mesh_index as int].unwrap().texture_id.unwrap();
        if texture_exists(textures, id) {
            &&& 1 <= mi.texture_index <= d.len()
            &&& texture_views(d)[mi.texture_index as int] == Some(id)
        } else {
            mi.texture_index == 0
        }
    } by {
        let mi = l.textured[k];
        let i = mi.mesh_index as int;
        let id = objects[i].unwrap().texture_id.unwrap();
        let p = drawn_textures(objects, textures, (i + 1) as nat);
        lemma_drawn(objects, textures, (i + 1) as nat);
        assert(p.len() <= d.len() && p == d.subrange(0, p.len() as int));
        if texture_exists(textures, id) {
            assert(p.contains(id));
            let j = choose|j: int| 0 <= j < p.len() && p[j] == id;
            lemma_slot_of_index(p, j);
            assert(d[j] == id);
        } else {
            if p.contains(id) {
                let j = choose|j: int| 0 <= j < p.len() && p[j] == id;
                assert(texture_exists(textures, p[j]));
            }
            lemma_slot_of_absent(p, id);
        }
    }
}

/// The instance that each draw entry names (the one its draw call uses) is
/// that entry's own mesh with that entry's texture slot.
pub proof fn law_entries_name_their_instances<V, T, X>(
    objects: Seq<Option<Mesh<V, T>>>,
    textures: Seq<Option<X>>,
)
    requires
        objects.len() <= usize::MAX,
        stored_count(objects, objects.len()) <= u32::MAX,
    ensures
        ({
            let l = layout(objects, textures, objects.len());
            let cd = colored_draw_list(l);
            let insts = model_instances(l.textured + cd);
            &&& forall|k: int|
                0 <= k < l.textured.len() ==> (#[trigger] l.textured[k]).index_transform < insts.len()
                    && insts[l.textured[k].index_transform as int] == instance_of(l.textured[k])
            &&& forall|k: int|
                0 <= k < cd.len() ==> (#[trigger] cd[k]).index_transform < insts.len()
                    && insts[cd[k].index_transform as int] == instance_of(cd[k])
        }),
{
    let n = objects.len();
    let l = layout(objects, textures, n);
    let cd = colored_draw_list(l);
    let all = l.textured + cd;
    lemma_entries(objects, textures, n);
    assert forall|k: int| 0 <= k < l.textured.len() implies (#[trigger] l.textured[k]).index_transform
        < model_instances(all).len() && model_instances(all)[l.textured[k].index_transform as int]
        == instance_of(l.textured[k]) by {
        assert(all[k] == l.textured[k]);
    }
    assert forall|k: int| 0 <= k < cd.len() implies (#[trigger] cd[k]).index_transform
        < model_instances(all).len() && model_instances(all)[cd[k].index_transform as int]
        == instance_of(cd[k]) by {
        assert(cd[k].index_transform == k + l.textured.len());
        assert(all[k + l.textured.len()] == cd[k]);
    }
}

/// Rebuilding the instance buffer from the draw lists right after they were
/// built gives the instance buffer that the build laid out.
pub proof fn law_rebuilt_instances_match<V, T, X>(
    objects: Seq<Option<Mesh<V, T>>>,
    textures: Seq<Option<X>>,
)
    requires
        objects.len() <= usize::MAX,
        stored_count(objects, objects.len()) <= u32::MAX,
    ensures
        ({
            let l = layout(objects, textures, objects.len());
            transform_instances(objects, l.textured + colored_draw_list(l)) == model_instances(
                l.textured + colored_draw_list(l),
            )
        }),
{
    let n = objects.len();
    let l = layout(objects, textures, n);
    let cd = colored_draw_list(l);
    let all = l.textured + cd;
    lemma_entries(objects, textures, n);
    assert forall|k: int| 0 <= k < all.len() implies entry_is_live(objects, #[trigger] all[k]) by {
        if k < l.textured.len() {
            assert(all[k] == l.textured[k]);
        } else {
            assert(all[k] == cd[k - l.textured.len()]);
            assert(cd[k - l.textured.len()].mesh_index == l.colored[k - l.textured.len()].mesh_index);
        }
    }
    lemma_live_all(objects, all, all.len());
    assert(live_instances(objects, all, all.len()) =~= all.map_values(|mi: ModelInfo| instance_of(mi)));
}

/// Editing the objects after a build, in place or by filling slots, without
/// emptying any slot that the build drew, leaves the rebuilt instance buffer
/// as the build laid it out: every draw entry's `index_transform` still picks
/// the instance of that entry's own object slot with that entry's texture
/// slot, so each draw reads its own mesh's current placement.
pub proof fn law_instances_survive_edits<V, T, X>(
    built: Seq<Option<Mesh<V, T>>>,
    textures: Seq<Option<X>>,
    current: Seq<Option<Mesh<V, T>>>,
)
    requires
        built.len() <= usize::MAX,
        stored_count(built, built.len()) <= u32::MAX,
        forall|i: int|
            0 <= i < built.len() && #[trigger] built[i] is Some ==> i < current.len()
                && current[i] is Some,
    ensures
        ({
            let l = layout(built, textures, built.len());
            let cd = colored_draw_list(l);
            let insts = transform_instances(current, l.textured + cd);
            &&& insts == model_instances(l.textured + cd)
            &&& forall|k: int|
                0 <= k < l.textured.len() ==> (#[trigger] l.textured[k]).index_transform < insts.len()
                    && insts[l.textured[k].index_transform as int] == instance_of(l.textured[k])
            &&& forall|k: int|
                0 <= k < cd.len() ==> (#[trigger] cd[k]).index_transform < insts.len()
                    && insts[cd[k].index_transform as int] == instance_of(cd[k])
        }),
{
    let n = built.len();
    let l = layout(built, textures, n);
    let cd = colored_draw_list(l);
    let all = l.textured + cd;
    lemma_entries(built, textures, n);
    assert forall|k: int| 0 <= k < all.len() implies entry_is_live(current, #[trigger] all[k]) by {
        if k < l.textured.len() {
            assert(all[k] == l.textured[k]);
            assert(built[l.textured[k].mesh_index as int] is Some);
        } else {
            let j = k - l.textured.len();
            assert(all[k] == cd[j]);
            assert(cd[j].mesh_index == l.colored[j].mesh_index);
            assert(built[l.colored[j].mesh_index as int] is Some);
        }
    }
    lemma_live_all(current, all, all.len());
    assert(live_instances(current, all, all.len()) =~= all.map_values(|mi: ModelInfo| instance_of(mi)));
    law_entries_name_their_instances(built, textures);
}

/// When every draw entry is live, the live instances are all the entries'
/// instances.
proof fn lemma_live_all<V, T>(objects: Seq<Option<Mesh<V, T>>>, models: Seq<ModelInfo>, n: nat)
    requires
        n <= models.len(),
        forall|k: int| 0 <= k < models.len() ==> entry_is_live(objects, #[trigger] models[k]),
    ensures
        live_instances(objects, models, n) == models.subrange(0, n as int).map_values(
            |mi: ModelInfo| instance_of(mi),
        ),
    decreases n,
{
    if n > 0 {
        lemma_live_all(objects, models, (n - 1) as nat);
        assert(entry_is_live(objects, models[n - 1]));
        assert(live_instances(objects, models, n) =~= models.subrange(0, n as int).map_values(
            |mi: ModelInfo| instance_of(mi),
        ));
    } else {
        assert(live_instances(objects, models, n) =~= models.subrange(0, n as int).map_values(
            |mi: ModelInfo| instance_of(mi),
        ));
    }
}

/// The prefix form of `law_drawn_textures`, proved object by object.
proof fn lemma_drawn_uses<V, T, X>(objects: Seq<Option<Mesh<V, T>>>, textures: Seq<Option<X>>, n: nat)
    requires
        n <= objects.len(),
    ensures
        ({
            let d = drawn_textures(objects, textures, n);
            &&& forall|j: int|
                0 <= j < d.len() ==> exists|i: int|
                    0 <= i < n && #[trigger] objects[i] is Some && objects[i].unwrap().texture_id
                        == Some(#[trigger] d[j])
            &&& forall|i: int|
                0 <= i < n && #[trigger] objects[i] is Some && objects[i].unwrap().texture_id is Some
                    && ((objects[i].unwrap().texture_id.unwrap() as int) < textures.len()
                    && textures[objects[i].unwrap().texture_id.unwrap() as int] is Some)
                    ==> d.contains(objects[i].unwrap().texture_id.unwrap())
        }),
    decreases n,
{
    if n > 0 {
        lemma_drawn_uses(objects, textures, (n - 1) as nat);
        let prev = drawn_textures(objects, textures, (n - 1) as nat);
        let d = drawn_textures(objects, textures, n);
        let last = n - 1;
        assert(d == prev || (objects[last] is Some && objects[last].unwrap().texture_id is Some && d
            == prev.push(objects[last].unwrap().texture_id.unwrap()) && !prev.contains(
            objects[last].unwrap().texture_id.unwrap(),
        ) && texture_exists(textures, objects[last].unwrap().texture_id.unwrap())));
        // every drawn texture is used
        assert forall|j: int| 0 <= j < d.len() implies exists|i: int|
            0 <= i < n && #[trigger] objects[i] is Some && objects[i].unwrap().texture_id == Some(
                #[trigger] d[j],
            ) by {
            if j < prev.len() {
                assert(d[j] == prev[j]);
                let i = choose|i: int|
                    0 <= i < n - 1 && #[trigger] objects[i] is Some && objects[i].unwrap().texture_id
                        == Some(prev[j]);
                assert(objects[i] is Some);
            } else {
                assert(d != prev);
                assert(objects[last] is Some);
            }
        }
        // every used stored texture is drawn
        assert forall|i: int|
            0 <= i < n && #[trigger] objects[i] is Some && objects[i].unwrap().texture_id is Some
                && ((objects[i].unwrap().texture_id.unwrap() as int) < textures.len()
                && textures[objects[i].unwrap().texture_id.unwrap() as int] is Some)
            implies d.contains(objects[i].unwrap().texture_id.unwrap()) by {
            let id = objects[i].unwrap().texture_id.unwrap();
            if i < last {
                assert(prev.contains(id));
                let w = choose|w: int| 0 <= w < prev.len() && prev[w] == id;
                assert(d[w] == id);
            } else {
                assert(texture_exists(textures, id));
                if prev.contains(id) {
                    let w = choose|w: int| 0 <= w < prev.len() && prev[w] == id;
                    assert(d[w] == id);
                } else {
                    assert(d[prev.len() as int] == id);
                }
            }
        }
    }
}

/// The drawn textures (the ones that get texture slots 1, 2, ...) are
/// exactly the stored textures that stored textured meshes use, each once:
/// every drawn texture is stored and used by some stored mesh, and every
/// stored texture that a stored mesh uses is drawn.
pub proof fn law_drawn_textures<V, T, X>(objects: Seq<Option<Mesh<V, T>>>, textures: Seq<Option<X>>)
    ensures
        ({
            let d = drawn_textures(objects, textures, objects.len());
            &&& d.no_duplicates()
            &&& forall|j: int|
                0 <= j < d.len() ==> (#[trigger] d[j] as int) < textures.len()
                    && textures[d[j] as int] is Some
            &&& forall|j: int|
                0 <= j < d.len() ==> exists|i: int|
                    0 <= i < objects.len() && #[trigger] objects[i] is Some
                        && objects[i].unwrap().texture_id == Some(#[trigger] d[j])
            &&& forall|i: int|
                0 <= i < objects.len() && #[trigger] objects[i] is Some
                    && objects[i].unwrap().texture_id is Some
                    && ((objects[i].unwrap().texture_id.unwrap() as int) < textures.len()
                    && textures[objects[i].unwrap().texture_id.unwrap() as int] is Some)
                    ==> d.contains(objects[i].unwrap().texture_id.unwrap())
        }),
{
    lemma_drawn(objects, textures, objects.len());
    lemma_drawn_uses(objects, textures, objects.len());
    let d = drawn_textures(objects, textures, objects.len());
    assert forall|j: int| 0 <= j < d.len() implies (#[trigger] d[j] as int) < textures.len()
        && textures[d[j] as int] is Some by {
        assert(texture_exists(textures, d[j]));
    }
}

/// The prefix form of `law_rebuilt_instances_are_the_live_entries`.
proof fn lemma_live_filter<V, T>(objects: Seq<Option<Mesh<V, T>>>, models: Seq<ModelInfo>, n: nat)
    requires
        n <= models.len(),
    ensures
        live_instances(objects, models, n) == models.subrange(0, n as int).filter(
            |mi: ModelInfo|
                (mi.mesh_index as int) < objects.len() && objects[mi.mesh_index as int] is Some,
        ).map_values(
            |mi: ModelInfo| Instance::Mesh { mesh_index: mi.mesh_index, texture: mi.texture_index },
        ),
    decreases n,
{
    reveal_with_fuel(Seq::filter, 1);
    let pred = |mi: ModelInfo|
        (mi.mesh_index as int) < objects.len() && objects[mi.mesh_index as int] is Some;
    let f = |mi: ModelInfo| Instance::Mesh { mesh_index: mi.mesh_index, texture: mi.texture_index };
    if n > 0 {
        lemma_live_filter(objects, models, (n - 1) as nat);
        let pre = models.subrange(0, n as int);
        assert(pre.drop_last() =~= models.subrange(0, n - 1));
        assert(pre.last() == models[n - 1]);
        let sub = models.subrange(0, n - 1).filter(pred);
        if pred(models[n - 1]) {
            assert(pre.filter(pred) == sub.push(models[n - 1]));
            assert(sub.push(models[n - 1]).map_values(f) =~= sub.map_values(f).push(f(models[n - 1])));
        } else {
            assert(pre.filter(pred) == sub);
        }
    } else {
        assert(models.subrange(0, 0).filter(pred) =~= Seq::<ModelInfo>::empty());
        assert(live_instances(objects, models, n) =~= Seq::<Instance>::empty());
        assert(models.subrange(0, 0).filter(pred).map_values(f) =~= Seq::<Instance>::empty());
    }
}

/// The rebuilt instance buffer holds, in order, the instance of exactly each
/// draw entry whose object slot holds a mesh (an entry whose slot is empty
/// adds nothing and takes nothing away), or the single identity instance
/// when no entry is live.
pub proof fn law_rebuilt_instances_are_the_live_entries<V, T>(
    objects: Seq<Option<Mesh<V, T>>>,
    models: Seq<ModelInfo>,
)
    ensures
        ({
            let live = models.filter(
                |mi: ModelInfo|
                    (mi.mesh_index as int) < objects.len() && objects[mi.mesh_index as int] is Some,
            ).map_values(
                |mi: ModelInfo| Instance::Mesh { mesh_index: mi.mesh_index, texture: mi.texture_index },
            );
            transform_instances(objects, models) == if live.len() == 0 {
                seq![Instance::Identity]
            } else {
                live
            }
        }),
{
    lemma_live_filter(objects, models, models.len());
    assert(models.subrange(0, models.len() as int) =~= models);
}

} // verus!
