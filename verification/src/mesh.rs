use vstd::prelude::*;

verus! {

/// A drawable mesh: its vertices, its triangle indices into `vertices`, the
/// texture it is drawn with (`None` draws it with its vertex colors), where
/// it stands in the world (`placement`) and whether it is shown.
pub struct Mesh<V, T> {
    pub vertices: Vec<V>,
    pub indices: Vec<u32>,
    pub texture_id: Option<u32>,
    pub placement: T,
    pub visible: bool,
}

impl<V, T> Mesh<V, T> {
    /// A colored mesh from the given vertices and indices, at the default
    /// placement (a value that `T::default` returns).
    pub fn new_manually(verts: Vec<V>, inds: Vec<u32>, visible: bool) -> (res: Self) where
        T: Default,
        ensures
            res.vertices@ == verts@,
            res.indices@ == inds@,
            res.texture_id is None,
            res.visible == visible,
            call_ensures(T::default, (), res.placement),
    {
        Self { vertices: verts, indices: inds, texture_id: None, placement: T::default(), visible }
    }

    /// Draw the mesh with the texture `texture_id` from now on.
    pub fn set_texture(&mut self, texture_id: u32)
        ensures
            *final(self) == (Mesh { texture_id: Some(texture_id), ..*old(self) }),
    {
        self.texture_id = Some(texture_id);
    }

    pub fn set_visible(&mut self, visible: bool)
        ensures
            *final(self) == (Mesh { visible, ..*old(self) }),
    {
        self.visible = visible;
    }

    pub fn get_visible(&self) -> (visible: bool)
        ensures
            visible == self.visible,
    {
        self.visible
    }
}

} // verus!
