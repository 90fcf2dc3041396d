//! Scene bookkeeping for a small instanced mesh renderer: the object and
//! texture slot stores, the layout of the shared vertex, index and instance
//! buffers, the texture slot table, the camera controller's key state and the
//! assembly of vertices from OBJ attribute arrays.
//!
//! Everything that touches the GPU, the window or floating-point arithmetic
//! lives outside this crate; the types here are generic over the vertex,
//! placement, texture and scalar types that the renderer supplies.

pub mod camera;
pub mod mesh;
pub mod layout;
pub mod scene;
pub mod obj;
