# wgpu_project

A small instanced mesh renderer on wgpu and winit.

- `src/` is the verified library (Verus): the scene's object and texture
  slot stores, the layout of the shared vertex, index and instance buffers
  with the texture slot table (`scene.rs`, specified in `layout.rs`, which
  also holds the laws the layout obeys), the camera controller's key state
  (`camera.rs`), meshes (`mesh.rs`) and the gathering of vertices from OBJ
  attribute arrays (`obj.rs`). It is generic over the vertex, placement,
  texture and scalar types, so it holds no floating-point data itself.
- `app/` is the program around it: window and event loop, GPU resources and
  uploads, shaders, file loading, and the floating-point camera and
  placement arithmetic.
- `tests/` exercises the library on concrete values.
