use vstd::prelude::*;
use crate::mesh::Mesh;
use crate::layout::{
    colored_draw_list, drawn_textures, instance_of, layout, lemma_drawn_grows, lemma_layout_shape,
    lemma_slot_of_absent, lemma_slot_of_push, lemma_totals_monotone, model_instances, slot_of,
    texture_views, total_indices, total_vertices, live_instances, transform_instances,
    slot_index_count, slot_vertex_count, stored_count,
    Instance, TEXTURE_SLOTS,
};
use std::collections::HashMap;

verus! {

/// Where one mesh's data sits in the shared buffers of its kind (textured or
/// colored): the range of its indices in the index buffer, the offset of its
/// first vertex in the vertex buffer, and the slot of its instance in the
/// instance buffer.
pub struct ModelInfo {
    pub mesh_index: usize,
    pub texture_index: u32,
    pub index_range: std::ops::Range<u32>,
    pub base_vertex: usize,
    pub index_transform: u32,
}

/// What `build_models_buffers` lays out: the vertex and index buffers of the
/// textured and of the colored meshes, the texture array's slots (the
/// texture id each slot shows, `None` for the default texture) and the
/// instance buffer.
pub struct ModelsBuffers<V> {
    pub verts_textured: Vec<V>,
    pub inds_textured: Vec<u32>,
    pub verts_colored: Vec<V>,
    pub inds_colored: Vec<u32>,
    pub texture_views: Vec<Option<u32>>,
    pub instances: Vec<Instance>,
}

/// Appends a copy of every element of `src` to `dst`.
fn append_copies<A: Copy>(dst: &mut Vec<A>, src: &Vec<A>)
    ensures
        final(dst)@ == old(dst)@ + src@,
{
    let mut j: usize = 0;
    while j < src.len()
        invariant
            j <= src@.len(),
            dst@ == old(dst)@ + src@.subrange(0, j as int),
        decreases src@.len() - j,
    {
        dst.push(src[j]);
        j = j + 1;
        assert(src@.subrange(0, j as int) =~= src@.subrange(0, j - 1).push(src@[j - 1]));
    }
    assert(src@.subrange(0, j as int) =~= src@);
}

/// The objects and textures of a scene, each in a slot store whose ids stay
/// valid for the life of the scene (a removed entry leaves an empty slot),
/// and the draw lists that `build_models_buffers` last made.
pub struct Scene<V, T, X> {
    meshes: Vec<Option<Mesh<V, T>>>,
    textures: Vec<Option<X>>,
    models_colored_drawing: Vec<ModelInfo>,
    models_textured_drawing: Vec<ModelInfo>,
}

impl<V, T, X> Scene<V, T, X> {
    /// The object slots, by id.
    pub closed spec fn objects(&self) -> Seq<Option<Mesh<V, T>>> {
        self.meshes@
    }

    /// The texture slots, by id.
    pub closed spec fn textures(&self) -> Seq<Option<X>> {
        self.textures@
    }

    /// The colored models' draw list, as `build_models_buffers` last made it.
    pub closed spec fn colored_models(&self) -> Seq<ModelInfo> {
        self.models_colored_drawing@
    }

    /// The textured models' draw list, as `build_models_buffers` last made it.
    pub closed spec fn textured_models(&self) -> Seq<ModelInfo> {
        self.models_textured_drawing@
    }

    /// The colored models' draw list, as `build_models_buffers` last made it.
    pub fn models_colored_drawing(&self) -> (r: &Vec<ModelInfo>)
        ensures
            r@ == self.colored_models(),
    {
        &self.models_colored_drawing
    }

    /// The textured models' draw list, as `build_models_buffers` last made it.
    pub fn models_textured_drawing(&self) -> (r: &Vec<ModelInfo>)
        ensures
            r@ == self.textured_models(),
    {
        &self.models_textured_drawing
    }

    /// The number of object slots, empty ones included.
    pub fn objects_len(&self) -> (n: usize)
        ensures
            n == self.objects().len(),
    {
        self.meshes.len()
    }

    /// The number of texture slots, empty ones included.
    pub fn textures_len(&self) -> (n: usize)
        ensures
            n == self.textures().len(),
    {
        self.textures.len()
    }

    /// A scene with no objects, no textures and empty draw lists.
    pub fn new() -> (s: Self)
        ensures
            s.objects().len() == 0,
            s.textures().len() == 0,
            s.colored_models().len() == 0,
            s.textured_models().len() == 0,
    {
        Scene {
            meshes: Vec::new(),
            textures: Vec::new(),
            models_colored_drawing: Vec::new(),
            models_textured_drawing: Vec::new(),
        }
    }

    /// Stores `mesh` in a new slot and returns its id.
    pub fn add_object(&mut self, mesh: Mesh<V, T>) -> (id: usize)
        requires
            old(self).objects().len() < usize::MAX,
        ensures
            id == old(self).objects().len(),
            final(self).objects() == old(self).objects().push(Some(mesh)),
            final(self).textures() == old(self).textures(),
            final(self).colored_models() == old(self).colored_models(),
            final(self).textured_models() == old(self).textured_models(),
    {
        self.meshes.push(Some(mesh));
        self.meshes.len() - 1
    }

    /// Stores `texture` in a new slot and returns its id.
    pub fn add_texture(&mut self, texture: X) -> (id: usize)
        requires
            old(self).textures().len() < usize::MAX,
        ensures
            id == old(self).textures().len(),
            final(self).textures() == old(self).textures().push(Some(texture)),
            final(self).objects() == old(self).objects(),
            final(self).colored_models() == old(self).colored_models(),
            final(self).textured_models() == old(self).textured_models(),
    {
        self.textures.push(Some(texture));
        self.textures.len() - 1
    }

    /// Empties the object slot `id`; an id past the end changes nothing.
    pub fn remove_object(&mut self, id: usize)
        ensures
            final(self).objects() == if id < old(self).objects().len() {
                old(self).objects().update(id as int, None)
            } else {
                old(self).objects()
            },
            final(self).textures() == old(self).textures(),
            final(self).colored_models() == old(self).colored_models(),
            final(self).textured_models() == old(self).textured_models(),
    {
        if id >= self.meshes.len() {
            return ;
        }
        self.meshes.set(id, None);
    }

    /// Empties the texture slot `id`; an id past the end changes nothing.
    pub fn remove_texture(&mut self, id: usize)
        ensures
            final(self).textures() == if id < old(self).textures().len() {
                old(self).textures().update(id as int, None)
            } else {
                old(self).textures()
            },
            final(self).objects() == old(self).objects(),
            final(self).colored_models() == old(self).colored_models(),
            final(self).textured_models() == old(self).textured_models(),
    {
        if id >= self.textures.len() {
            return ;
        }
        self.textures.set(id, None);
    }

    /// Puts `mesh` in the object slot `id`, empty or not; an id past the end
    /// changes nothing.
    pub fn change_object(&mut self, id: usize, mesh: Mesh<V, T>)
        ensures
            final(self).objects() == if id < old(self).objects().len() {
                old(self).objects().update(id as int, Some(mesh))
            } else {
                old(self).objects()
            },
            final(self).textures() == old(self).textures(),
            final(self).colored_models() == old(self).colored_models(),
            final(self).textured_models() == old(self).textured_models(),
    {
        if id >= self.meshes.len() {
            return ;
        }
        self.meshes.set(id, Some(mesh));
    }

    /// Puts `texture` in the texture slot `id`, empty or not; an id past the
    /// end changes nothing.
    pub fn change_texture(&mut self, id: usize, texture: X)
        ensures
            final(self).textures() == if id < old(self).textures().len() {
                old(self).textures().update(id as int, Some(texture))
            } else {
                old(self).textures()
            },
            final(self).objects() == old(self).objects(),
            final(self).colored_models() == old(self).colored_models(),
            final(self).textured_models() == old(self).textured_models(),
    {
        if id >= self.textures.len() {
            return ;
        }
        self.textures.set(id, Some(texture));
    }

    /// The object in slot `id`, for changing it in place; `None` when the
    /// slot is empty or past the end.
    pub fn get_object(&mut self, id: usize) -> (res: Option<&mut Mesh<V, T>>)
        ensures
            res is Some <==> (id < old(self).objects().len() && old(self).objects()[id as int] is Some),
            res matches Some(m) ==> *m == old(self).objects()[id as int].unwrap()
                && final(self).objects() == old(self).objects().update(id as int, Some(*final(m))),
            res is None ==> final(self).objects() == old(self).objects(),
            final(self).textures() == old(self).textures(),
            final(self).colored_models() == old(self).colored_models(),
            final(self).textured_models() == old(self).textured_models(),
    {
        if id >= self.meshes.len() {
            return None;
        }
        match &mut self.meshes[id] {
            Some(m) => Some(m),
            None => None,
        }
    }

    /// Lays out every stored mesh for drawing, in object order: each mesh is
    /// appended to the vertex and index buffers of its kind (textured when it
    /// has a texture id, colored otherwise) and gets a draw entry in the
    /// scene's draw list of that kind. The distinct stored textures that the
    /// textured meshes use get texture slots 1, 2, ... in order of first use;
    /// a mesh whose texture is not stored is drawn with the default texture
    /// (slot 0). The instance buffer holds the textured meshes' instances and
    /// then the colored ones', and each draw entry names its own instance.
    pub fn build_models_buffers(&mut self) -> (res: ModelsBuffers<V>) where V: Copy
        requires
            stored_count(old(self).objects(), old(self).objects().len()) <= u32::MAX,
            total_indices(old(self).objects(), old(self).objects().len()) <= usize::MAX,
            total_vertices(old(self).objects(), old(self).objects().len()) <= usize::MAX,
            drawn_textures(old(self).objects(), old(self).textures(), old(self).objects().len()).len()
                < TEXTURE_SLOTS,
        ensures
            ({
                let objects = old(self).objects();
                let textures = old(self).textures();
                let l = layout(objects, textures, objects.len());
                &&& final(self).objects() == objects
                &&& final(self).textures() == textures
                &&& final(self).textured_models() == l.textured
                &&& final(self).colored_models() == colored_draw_list(l)
                &&& res.verts_textured@ == l.verts_textured
                &&& res.inds_textured@ == l.inds_textured
                &&& res.verts_colored@ == l.verts_colored
                &&& res.inds_colored@ == l.inds_colored
                &&& res.texture_views@ == texture_views(drawn_textures(objects, textures, objects.len()))
                &&& res.instances@ == model_instances(l.textured + colored_draw_list(l))
            }),
    {
        let ghost objects = self.meshes@;
        let ghost textures = self.textures@;
        let n = self.meshes.len();
        let mut textures_id_to_draw_id = HashMap::<u32, u32>::new();
        let mut views: Vec<Option<u32>> = Vec::new();
        while views.len() < TEXTURE_SLOTS
            invariant
                views@.len() <= TEXTURE_SLOTS,
                forall|s: int| 0 <= s < views@.len() ==> views@[s] is None,
            decreases TEXTURE_SLOTS - views@.len(),
        {
            views.push(None);
        }
        assert(views@ =~= texture_views(Seq::<u32>::empty()));
        let mut last_texture_id: u32 = 1;
        let mut verts_textured: Vec<V> = Vec::new();
        let mut inds_textured: Vec<u32> = Vec::new();
        let mut verts_colored: Vec<V> = Vec::new();
        let mut inds_colored: Vec<u32> = Vec::new();
        let mut trans_textured: Vec<Instance> = Vec::new();
        let mut trans_colored: Vec<Instance> = Vec::new();
        let mut models_textured: Vec<ModelInfo> = Vec::new();
        let mut models_colored: Vec<ModelInfo> = Vec::new();
        let ghost mut order: Seq<u32> = Seq::empty();
        let mut index: usize = 0;
        while index < n
            invariant
                n == objects.len(),
                self.meshes@ == objects,
                self.textures@ == textures,
                stored_count(objects, n as nat) <= u32::MAX,
                total_indices(objects, n as nat) <= usize::MAX,
                total_vertices(objects, n as nat) <= usize::MAX,
                drawn_textures(objects, textures, n as nat).len() < TEXTURE_SLOTS,
                index <= n,
                order == drawn_textures(objects, textures, index as nat),
                last_texture_id == order.len() + 1,
                views@ == texture_views(order),
                forall|k: u32| textures_id_to_draw_id@.contains_key(k) <==> order.contains(k),
                forall|k: u32|
                    textures_id_to_draw_id@.contains_key(k) ==> textures_id_to_draw_id@[k]
                        == slot_of(order, k),
                ({
                    let l = layout(objects, textures, index as nat);
                    &&& models_textured@ == l.textured
                    &&& models_colored@ == l.colored
                    &&& verts_textured@ == l.verts_textured
                    &&& inds_textured@ == l.inds_textured
                    &&& verts_colored@ == l.verts_colored
                    &&& inds_colored@ == l.inds_colored
                    &&& trans_textured@ == l.textured.map_values(|mi: ModelInfo| instance_of(mi))
                    &&& trans_colored@ == l.colored.map_values(|mi: ModelInfo| instance_of(mi))
                }),
            decreases n - index,
        {
            proof {
                lemma_totals_monotone(objects, index as nat, n as nat);
                lemma_totals_monotone(objects, (index + 1) as nat, n as nat);
                lemma_layout_shape(objects, textures, index as nat);
                lemma_layout_shape(objects, textures, (index + 1) as nat);
                lemma_drawn_grows(objects, textures, (index + 1) as nat, n as nat);
            }
            let ghost l = layout(objects, textures, index as nat);
            match &self.meshes[index] {
                Some(mesh) => {
                    match mesh.texture_id {
                        Some(id) => {
                            let mut actual_texture: u32 = 0;
                            match textures_id_to_draw_id.get(&id) {
                                Some(actual_id) => {
                                    actual_texture = *actual_id;
                                },
                                None => {
                                    if (id as usize) < self.textures.len() {
                                        if self.textures[id as usize].is_some() {
                                            proof {
                                                lemma_slot_of_push(order, id, id);
                                                assert forall|k: u32|
                                                    textures_id_to_draw_id@.insert(id, last_texture_id).contains_key(k)
                                                    implies #[trigger] order.push(id).contains(k) by {
                                                    if k == id {
                                                        assert(order.push(id)[order.len() as int] == id);
                                                    } else {
                                                        assert(textures_id_to_draw_id@.contains_key(k));
                                                        assert(order.contains(k));
                                                        let w = choose|w: int| 0 <= w < order.len() && order[w] == k;
                                                        assert(order.push(id)[w] == k);
                                                    }
                                                }
                                                assert forall|k: u32| #[trigger] order.push(id).contains(k)
                                                    && k != id implies order.contains(k) by {
                                                    let w = choose|w: int| 0 <= w < order.push(id).len() && order.push(id)[w] == k;
                                                    assert(order[w] == k);
                                                }
                                                assert forall|k: u32| k != id implies
                                                    #[trigger] slot_of(order.push(id), k) == slot_of(order, k) by {
                                                    lemma_slot_of_push(order, id, k);
                                                }
                                            }
                                            textures_id_to_draw_id.insert(id, last_texture_id);
                                            views.set(last_texture_id as usize, Some(id));
                                            actual_texture = last_texture_id;
                                            last_texture_id = last_texture_id + 1;
                                            proof {
                                                order = order.push(id);
                                                assert(views@ =~= texture_views(order));
                                            }
                                        } else {
                                            proof { lemma_slot_of_absent(order, id); }
                                        }
                                    } else {
                                        proof { lemma_slot_of_absent(order, id); }
                                    }
                                },
                            }
                            let model = ModelInfo {
                                mesh_index: index,
                                texture_index: actual_texture,
                                index_range: (inds_textured.len() as u32)..((inds_textured.len()
                                    + mesh.indices.len()) as u32),
                                base_vertex: verts_textured.len(),
                                index_transform: trans_textured.len() as u32,
                            };
                            append_copies(&mut verts_textured, &mesh.vertices);
                            append_copies(&mut inds_textured, &mesh.indices);
                            trans_textured.push(
                                Instance::Mesh { mesh_index: index, texture: actual_texture },
                            );
                            models_textured.push(model);
                        },
                        None => {
                            let model = ModelInfo {
                                mesh_index: index,
                                texture_index: 0,
                                index_range: (inds_colored.len() as u32)..((inds_colored.len()
                                    + mesh.indices.len()) as u32),
                                base_vertex: verts_colored.len(),
                                index_transform: trans_colored.len() as u32,
                            };
                            append_copies(&mut verts_colored, &mesh.vertices);
                            append_copies(&mut inds_colored, &mesh.indices);
                            trans_colored.push(Instance::Mesh { mesh_index: index, texture: 0 });
                            models_colored.push(model);
                        },
                    }
                },
                None => {},
            }
            index = index + 1;
            proof {
                let l2 = layout(objects, textures, index as nat);
                assert(trans_textured@ =~= l2.textured.map_values(|mi: ModelInfo| instance_of(mi)));
                assert(trans_colored@ =~= l2.colored.map_values(|mi: ModelInfo| instance_of(mi)));
            }
        }
        let ghost l = layout(objects, textures, n as nat);
        proof {
            lemma_layout_shape(objects, textures, n as nat);
        }
        let offset = trans_textured.len() as u32;
        let mut shifted: Vec<ModelInfo> = Vec::new();
        let mut j: usize = 0;
        while j < models_colored.len()
            invariant
                models_colored@ == l.colored,
                offset == l.textured.len(),
                l.textured.len() + l.colored.len() <= u32::MAX,
                forall|k: int| 0 <= k < l.colored.len() ==> #[trigger] l.colored[k].index_transform == k,
                j <= models_colored@.len(),
                shifted@ == colored_draw_list(l).subrange(0, j as int),
            decreases models_colored@.len() - j,
        {
            let m = &models_colored[j];
            shifted.push(
                ModelInfo {
                    mesh_index: m.mesh_index,
                    texture_index: m.texture_index,
                    index_range: m.index_range.start..m.index_range.end,
                    base_vertex: m.base_vertex,
                    index_transform: m.index_transform + offset,
                },
            );
            j = j + 1;
            assert(shifted@ =~= colored_draw_list(l).subrange(0, j as int));
        }
        assert(shifted@ =~= colored_draw_list(l));
        let mut trans = trans_textured;
        append_copies(&mut trans, &trans_colored);
        proof {
            let models = l.textured + colored_draw_list(l);
            assert(trans@ =~= models.map_values(|mi: ModelInfo| instance_of(mi)));
        }
        if trans.len() == 0 {
            trans.push(Instance::Identity);
            assert(trans@ =~= model_instances(l.textured + colored_draw_list(l)));
        }
        self.models_textured_drawing = models_textured;
        self.models_colored_drawing = shifted;
        ModelsBuffers {
            verts_textured,
            inds_textured,
            verts_colored,
            inds_colored,
            texture_views: views,
            instances: trans,
        }
    }

    /// Shows or hides the object in slot `id`; an empty slot or an id past the
    /// end changes nothing.
    pub fn set_object_visibilty(&mut self, id: usize, visible: bool)
        ensures
            final(self).objects() == if id < old(self).objects().len()
                && old(self).objects()[id as int] is Some {
                old(self).objects().update(
                    id as int,
                    Some(Mesh { visible, ..old(self).objects()[id as int].unwrap() }),
                )
            } else {
                old(self).objects()
            },
            final(self).textures() == old(self).textures(),
            final(self).colored_models() == old(self).colored_models(),
            final(self).textured_models() == old(self).textured_models(),
    {
        if id >= self.meshes.len() {
            return ;
        }
        if let Some(mesh) = self.get_object(id) {
            mesh.visible = visible;
        }
    }

    /// The object in slot `id`, if the slot holds one.
    pub fn object(&self, id: usize) -> (res: Option<&Mesh<V, T>>)
        ensures
            res matches Some(m) ==> id < self.objects().len() && self.objects()[id as int]
                == Some(*m),
            res is None ==> id >= self.objects().len() || self.objects()[id as int] is None,
    {
        if id >= self.meshes.len() {
            return None;
        }
        match &self.meshes[id] {
            Some(m) => Some(m),
            None => None,
        }
    }

    /// The texture in slot `id`, if the slot holds one.
    pub fn texture(&self, id: usize) -> (res: Option<&X>)
        ensures
            res matches Some(x) ==> id < self.textures().len() && self.textures()[id as int]
                == Some(*x),
            res is None ==> id >= self.textures().len() || self.textures()[id as int] is None,
    {
        if id >= self.textures.len() {
            return None;
        }
        match &self.textures[id] {
            Some(x) => Some(x),
            None => None,
        }
    }

    /// The instance buffer for the current draw lists: the textured entries'
    /// instances and then the colored ones', skipping entries whose object
    /// slot no longer holds a mesh; the single identity instance when no
    /// entry is left.
    pub fn build_transform_buffers(&self) -> (res: Vec<Instance>)
        ensures
            res@ == transform_instances(
                self.objects(),
                self.textured_models() + self.colored_models(),
            ),
    {
        let ghost objects = self.meshes@;
        let ghost all = self.models_textured_drawing@ + self.models_colored_drawing@;
        let mut trans: Vec<Instance> = Vec::new();
        let t = self.models_textured_drawing.len();
        let mut k: usize = 0;
        while k < t
            invariant
                t == self.models_textured_drawing@.len(),
                all == self.models_textured_drawing@ + self.models_colored_drawing@,
                objects == self.meshes@,
                k <= t,
                trans@ == live_instances(objects, all, k as nat),
            decreases t - k,
        {
            let model = &self.models_textured_drawing[k];
            assert(all[k as int] == *model);
            if model.mesh_index < self.meshes.len() {
                if self.meshes[model.mesh_index].is_some() {
                    trans.push(
                        Instance::Mesh {
                            mesh_index: model.mesh_index,
                            texture: model.texture_index,
                        },
                    );
                }
            }
            k = k + 1;
        }
        let c = self.models_colored_drawing.len();
        let mut j: usize = 0;
        while j < c
            invariant
                t == self.models_textured_drawing@.len(),
                c == self.models_colored_drawing@.len(),
                all == self.models_textured_drawing@ + self.models_colored_drawing@,
                objects == self.meshes@,
                j <= c,
                trans@ == live_instances(objects, all, (t + j) as nat),
            decreases c - j,
        {
            let model = &self.models_colored_drawing[j];
            assert(all[t + j] == *model);
            if model.mesh_index < self.meshes.len() {
                if self.meshes[model.mesh_index].is_some() {
                    trans.push(
                        Instance::Mesh {
                            mesh_index: model.mesh_index,
                            texture: model.texture_index,
                        },
                    );
                }
            }
            j = j + 1;
        }
        if trans.len() == 0 {
            trans.push(Instance::Identity);
            assert(trans@ =~= seq![Instance::Identity]);
        }
        trans
    }

    /// The distinct stored textures that the textured meshes use, in order of
    /// first use: the texture at position `k` is drawn from slot `k + 1`.
    pub fn textures_to_draw(&self) -> (d: Vec<u32>)
        ensures
            d@ == drawn_textures(self.objects(), self.textures(), self.objects().len()),
    {
        let ghost objects = self.meshes@;
        let ghost textures = self.textures@;
        let mut order: Vec<u32> = Vec::new();
        let mut index: usize = 0;
        while index < self.meshes.len()
            invariant
                objects == self.meshes@,
                textures == self.textures@,
                index <= objects.len(),
                order@ == drawn_textures(objects, textures, index as nat),
            decreases objects.len() - index,
        {
            match &self.meshes[index] {
                Some(mesh) => {
                    match mesh.texture_id {
                        Some(id) => {
                            if !contains_u32(&order, id) && (id as usize) < self.textures.len()
                                && self.textures[id as usize].is_some() {
                                order.push(id);
                            }
                        },
                        None => {},
                    }
                },
                None => {},
            }
            index = index + 1;
        }
        order
    }

    /// Lays out the scene as `build_models_buffers` does when the scene is
    /// within its limits: fewer than `TEXTURE_SLOTS` distinct textures drawn,
    /// at most `u32::MAX` stored meshes, and vertex and index totals that fit
    /// in `usize`. Otherwise returns `None` and changes nothing.
    pub fn try_build_models_buffers(&mut self) -> (res: Option<ModelsBuffers<V>>) where V: Copy
        ensures
            ({
                let objects = old(self).objects();
                let textures = old(self).textures();
                let fits = stored_count(objects, objects.len()) <= u32::MAX
                    && total_indices(objects, objects.len()) <= usize::MAX
                    && total_vertices(objects, objects.len()) <= usize::MAX
                    && drawn_textures(objects, textures, objects.len()).len() < TEXTURE_SLOTS;
                let l = layout(objects, textures, objects.len());
                &&& final(self).objects() == objects
                &&& final(self).textures() == textures
                &&& (res is Some <==> fits)
                &&& res is None ==> final(self).textured_models() == old(self).textured_models()
                    && final(self).colored_models() == old(self).colored_models()
                &&& res matches Some(b) ==> {
                    &&& final(self).textured_models() == l.textured
                    &&& final(self).colored_models() == colored_draw_list(l)
                    &&& b.verts_textured@ == l.verts_textured
                    &&& b.inds_textured@ == l.inds_textured
                    &&& b.verts_colored@ == l.verts_colored
                    &&& b.inds_colored@ == l.inds_colored
                    &&& b.texture_views@ == texture_views(
                        drawn_textures(objects, textures, objects.len()),
                    )
                    &&& b.instances@ == model_instances(l.textured + colored_draw_list(l))
                }
            }),
    {
        let ghost objects = self.meshes@;
        let mut stored: usize = 0;
        let mut indices: usize = 0;
        let mut vertices: usize = 0;
        let mut index: usize = 0;
        while index < self.meshes.len()
            invariant
                objects == self.meshes@,
                index <= objects.len(),
                stored <= index,
                stored == stored_count(objects, index as nat),
                indices == total_indices(objects, index as nat),
                vertices == total_vertices(objects, index as nat),
            decreases objects.len() - index,
        {
            let (mi, mv) = match &self.meshes[index] {
                Some(mesh) => (mesh.indices.len(), mesh.vertices.len()),
                None => (0, 0),
            };
            assert(mi == slot_index_count(objects[index as int]));
            assert(mv == slot_vertex_count(objects[index as int]));
            if self.meshes[index].is_some() {
                stored = stored + 1;
            }
            match indices.checked_add(mi) {
                Some(x) => {
                    indices = x;
                },
                None => {
                    proof {
                        lemma_totals_monotone(objects, (index + 1) as nat, objects.len());
                    }
                    return None;
                },
            }
            match vertices.checked_add(mv) {
                Some(x) => {
                    vertices = x;
                },
                None => {
                    proof {
                        lemma_totals_monotone(objects, (index + 1) as nat, objects.len());
                    }
                    return None;
                },
            }
            index = index + 1;
        }
        if stored > u32::MAX as usize {
            return None;
        }
        if self.textures_to_draw().len() >= TEXTURE_SLOTS {
            return None;
        }
        Some(self.build_models_buffers())
    }

    /// Adds a model read from an OBJ file: its texture, when one was loaded,
    /// goes into a new texture slot and the mesh is drawn with it; otherwise
    /// the mesh is drawn with the texture in slot 0. The mesh is visible, at
    /// the default placement, in a new object slot whose id is returned.
    pub fn load_model_from_obj(&mut self, verts: Vec<V>, indices: Vec<u32>, texture: Option<X>) -> (id: usize) where
        T: Default,
        requires
            old(self).objects().len() < usize::MAX,
            old(self).textures().len() < usize::MAX,
        ensures
            id == old(self).objects().len(),
            final(self).objects().len() == old(self).objects().len() + 1,
            forall|i: int| 0 <= i < id ==> final(self).objects()[i] == old(self).objects()[i],
            final(self).objects()[id as int] is Some,
            ({
                let m = final(self).objects()[id as int].unwrap();
                &&& m.vertices@ == verts@
                &&& m.indices@ == indices@
                &&& m.visible
                &&& call_ensures(T::default, (), m.placement)
                &&& m.texture_id == Some(
                    match texture {
                        Some(_) => old(self).textures().len() as u32,
                        None => 0u32,
                    },
                )
            }),
            final(self).textures() == match texture {
                Some(x) => old(self).textures().push(Some(x)),
                None => old(self).textures(),
            },
            final(self).colored_models() == old(self).colored_models(),
            final(self).textured_models() == old(self).textured_models(),
    {
        let mut mesh = Mesh::new_manually(verts, indices, true);
        match texture {
            Some(x) => {
                let texture_id = self.add_texture(x);
                mesh.set_texture(texture_id as u32);
            },
            None => {
                mesh.set_texture(0);
            },
        }
        self.add_object(mesh)
    }
}

/// Whether `v` holds `x`.
fn contains_u32(v: &Vec<u32>, x: u32) -> (res: bool)
    ensures
        res == v@.contains(x),
{
    let mut i: usize = 0;
    while i < v.len()
        invariant
            i <= v@.len(),
            forall|j: int| 0 <= j < i ==> v@[j] != x,
        decreases v@.len() - i,
    {
        if v[i] == x {
            return true;
        }
        i = i + 1;
    }
    false
}

} // verus!
