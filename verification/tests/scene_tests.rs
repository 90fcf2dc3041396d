use wgpu_project::layout::{Instance, TEXTURE_SLOTS};
use wgpu_project::mesh::Mesh;
use wgpu_project::scene::Scene;

type TestMesh = Mesh<u8, ()>;
type TestScene = Scene<u8, (), &'static str>;

fn colored(verts: Vec<u8>, inds: Vec<u32>) -> TestMesh {
    Mesh::new_manually(verts, inds, true)
}

fn textured(verts: Vec<u8>, inds: Vec<u32>, texture: u32) -> TestMesh {
    let mut m = Mesh::new_manually(verts, inds, true);
    m.set_texture(texture);
    m
}

#[test]
fn new_mesh_is_colored_at_default_placement() {
    let m: TestMesh = Mesh::new_manually(vec![1, 2], vec![0, 1], false);
    assert_eq!(m.vertices, vec![1, 2]);
    assert_eq!(m.indices, vec![0, 1]);
    assert_eq!(m.texture_id, None);
    assert!(!m.get_visible());
    let mut m = m;
    m.set_visible(true);
    assert!(m.get_visible());
    m.set_texture(4);
    assert_eq!(m.texture_id, Some(4));
}

#[test]
fn ids_are_slot_positions() {
    let mut s = TestScene::new();
    assert_eq!(s.add_object(colored(vec![1], vec![0])), 0);
    assert_eq!(s.add_object(colored(vec![2], vec![0])), 1);
    assert_eq!(s.add_texture("a"), 0);
    assert_eq!(s.add_texture("b"), 1);
    assert_eq!(s.object(1).unwrap().vertices, vec![2]);
    assert_eq!(s.texture(0), Some(&"a"));
}

#[test]
fn removed_slots_stay_empty_and_ids_stay_valid() {
    let mut s = TestScene::new();
    s.add_object(colored(vec![1], vec![0]));
    s.add_object(colored(vec![2], vec![0]));
    s.remove_object(0);
    assert!(s.get_object(0).is_none());
    assert_eq!(s.get_object(1).unwrap().vertices, vec![2]);
    assert_eq!(s.add_object(colored(vec![3], vec![0])), 2);
    s.add_texture("a");
    s.remove_texture(0);
    assert_eq!(s.texture(0), None);
    s.remove_texture(5);
    s.remove_object(9);
    assert_eq!(s.object(2).unwrap().vertices, vec![3]);
}

#[test]
fn change_replaces_only_existing_slots() {
    let mut s = TestScene::new();
    s.add_object(colored(vec![1], vec![0]));
    s.remove_object(0);
    s.change_object(0, colored(vec![7], vec![0]));
    assert_eq!(s.object(0).unwrap().vertices, vec![7]);
    s.change_object(3, colored(vec![8], vec![0]));
    assert!(s.object(3).is_none());
    s.add_texture("a");
    s.change_texture(0, "b");
    assert_eq!(s.texture(0), Some(&"b"));
    s.change_texture(1, "c");
    assert_eq!(s.texture(1), None);
}

#[test]
fn get_object_edits_in_place() {
    let mut s = TestScene::new();
    s.add_object(colored(vec![1], vec![0]));
    if let Some(m) = s.get_object(0) {
        m.vertices.push(9);
    }
    assert_eq!(s.object(0).unwrap().vertices, vec![1, 9]);
    assert!(s.get_object(1).is_none());
}

#[test]
fn visibility_is_set_through_the_scene() {
    let mut s = TestScene::new();
    s.add_object(colored(vec![1], vec![0]));
    s.set_object_visibilty(0, false);
    assert!(!s.object(0).unwrap().get_visible());
    s.set_object_visibilty(0, true);
    assert!(s.object(0).unwrap().get_visible());
    s.set_object_visibilty(4, false);
    s.remove_object(0);
    s.set_object_visibilty(0, false);
    assert!(s.object(0).is_none());
}

#[test]
fn load_model_with_texture_uses_new_slot() {
    let mut s = TestScene::new();
    s.add_texture("default");
    let id = s.load_model_from_obj(vec![1, 2, 3], vec![0, 1, 2], Some("wood"));
    assert_eq!(id, 0);
    let m = s.object(id).unwrap();
    assert_eq!(m.texture_id, Some(1));
    assert!(m.get_visible());
    assert_eq!(s.texture(1), Some(&"wood"));
}

#[test]
fn load_model_without_texture_uses_slot_zero() {
    let mut s = TestScene::new();
    let id = s.load_model_from_obj(vec![1], vec![0], None);
    assert_eq!(s.object(id).unwrap().texture_id, Some(0));
    assert_eq!(s.texture(0), None);
}

#[test]
fn layout_places_each_mesh_in_its_kind() {
    let mut s = TestScene::new();
    let gman = s.add_texture("gman") as u32;
    let doctor = s.add_texture("doctor") as u32;
    s.add_object(textured(vec![1, 2, 3], vec![0, 1, 2], doctor));
    s.add_object(colored(vec![4, 5], vec![1, 0]));
    s.add_object(textured(vec![6, 7], vec![1, 1, 0, 0], gman));
    s.add_object(textured(vec![8], vec![0], doctor));
    s.add_object(colored(vec![9], vec![0, 0, 0]));
    let b = s.build_models_buffers();

    assert_eq!(b.verts_textured, vec![1, 2, 3, 6, 7, 8]);
    assert_eq!(b.inds_textured, vec![0, 1, 2, 1, 1, 0, 0, 0]);
    assert_eq!(b.verts_colored, vec![4, 5, 9]);
    assert_eq!(b.inds_colored, vec![1, 0, 0, 0, 0]);

    let t = &s.models_textured_drawing();
    assert_eq!(t.len(), 3);
    assert_eq!((t[0].mesh_index, t[0].texture_index), (0, 1));
    assert_eq!((t[1].mesh_index, t[1].texture_index), (2, 2));
    assert_eq!((t[2].mesh_index, t[2].texture_index), (3, 1));
    assert_eq!(t[0].index_range, 0..3);
    assert_eq!(t[1].index_range, 3..7);
    assert_eq!(t[2].index_range, 7..8);
    assert_eq!((t[0].base_vertex, t[1].base_vertex, t[2].base_vertex), (0, 3, 5));
    assert_eq!((t[0].index_transform, t[1].index_transform, t[2].index_transform), (0, 1, 2));

    let c = &s.models_colored_drawing();
    assert_eq!(c.len(), 2);
    assert_eq!((c[0].mesh_index, c[1].mesh_index), (1, 4));
    assert_eq!((c[0].texture_index, c[1].texture_index), (0, 0));
    assert_eq!(c[0].index_range, 0..2);
    assert_eq!(c[1].index_range, 2..5);
    assert_eq!((c[0].base_vertex, c[1].base_vertex), (0, 2));
    assert_eq!((c[0].index_transform, c[1].index_transform), (3, 4));

    assert_eq!(b.texture_views.len(), TEXTURE_SLOTS);
    assert_eq!(b.texture_views[0], None);
    assert_eq!(b.texture_views[1], Some(doctor));
    assert_eq!(b.texture_views[2], Some(gman));
    assert!(b.texture_views[3..].iter().all(|v| v.is_none()));

    assert_eq!(
        b.instances,
        vec![
            Instance::Mesh { mesh_index: 0, texture: 1 },
            Instance::Mesh { mesh_index: 2, texture: 2 },
            Instance::Mesh { mesh_index: 3, texture: 1 },
            Instance::Mesh { mesh_index: 1, texture: 0 },
            Instance::Mesh { mesh_index: 4, texture: 0 },
        ]
    );
    for m in t.iter().chain(c.iter()) {
        assert_eq!(
            b.instances[m.index_transform as usize],
            Instance::Mesh { mesh_index: m.mesh_index, texture: m.texture_index }
        );
    }
    assert_eq!(s.build_transform_buffers(), b.instances);

    for m in t.iter() {
        let mesh = s.object(m.mesh_index).unwrap();
        let r = m.index_range.start as usize..m.index_range.end as usize;
        assert_eq!(&b.inds_textured[r], &mesh.indices[..]);
        let v = m.base_vertex..m.base_vertex + mesh.vertices.len();
        assert_eq!(&b.verts_textured[v], &mesh.vertices[..]);
        let id = mesh.texture_id.unwrap();
        assert_eq!(b.texture_views[m.texture_index as usize], Some(id));
    }
    for m in c.iter() {
        let mesh = s.object(m.mesh_index).unwrap();
        assert!(mesh.texture_id.is_none());
        let r = m.index_range.start as usize..m.index_range.end as usize;
        assert_eq!(&b.inds_colored[r], &mesh.indices[..]);
        let v = m.base_vertex..m.base_vertex + mesh.vertices.len();
        assert_eq!(&b.verts_colored[v], &mesh.vertices[..]);
    }
}

#[test]
fn missing_texture_draws_with_default_slot() {
    let mut s = TestScene::new();
    s.add_texture("a");
    s.remove_texture(0);
    s.add_object(textured(vec![1], vec![0], 0));
    s.add_object(textured(vec![2], vec![0], 42));
    let b = s.build_models_buffers();
    assert_eq!(s.models_textured_drawing()[0].texture_index, 0);
    assert_eq!(s.models_textured_drawing()[1].texture_index, 0);
    assert!(b.texture_views.iter().all(|v| v.is_none()));
}

#[test]
fn removed_objects_are_not_laid_out() {
    let mut s = TestScene::new();
    s.add_object(colored(vec![1], vec![0]));
    s.add_object(colored(vec![2], vec![0]));
    s.remove_object(0);
    let b = s.build_models_buffers();
    assert_eq!(b.verts_colored, vec![2]);
    assert_eq!(s.models_colored_drawing().len(), 1);
    assert_eq!(s.models_colored_drawing()[0].mesh_index, 1);
    assert_eq!(s.models_colored_drawing()[0].base_vertex, 0);
}

#[test]
fn empty_scene_has_identity_instance() {
    let mut s = TestScene::new();
    let b = s.build_models_buffers();
    assert_eq!(b.instances, vec![Instance::Identity]);
    assert!(b.verts_textured.is_empty() && b.inds_colored.is_empty());
    assert_eq!(s.build_transform_buffers(), vec![Instance::Identity]);
}

#[test]
fn transform_buffers_skip_lost_models() {
    let mut s = TestScene::new();
    s.add_texture("a");
    s.add_object(textured(vec![1], vec![0], 0));
    s.add_object(colored(vec![2], vec![0]));
    s.build_models_buffers();
    s.remove_object(0);
    assert_eq!(s.build_transform_buffers(), vec![Instance::Mesh { mesh_index: 1, texture: 0 }]);
    s.remove_object(1);
    assert_eq!(s.build_transform_buffers(), vec![Instance::Identity]);
}

#[test]
fn textures_to_draw_lists_first_uses() {
    let mut s = TestScene::new();
    s.add_texture("a");
    s.add_texture("b");
    s.add_object(textured(vec![1], vec![0], 1));
    s.add_object(textured(vec![1], vec![0], 7));
    s.add_object(textured(vec![1], vec![0], 0));
    s.add_object(textured(vec![1], vec![0], 1));
    assert_eq!(s.textures_to_draw(), vec![1, 0]);
}

#[test]
fn too_many_textures_are_refused() {
    let mut s: Scene<u8, (), u32> = Scene::new();
    for i in 0..1024u32 {
        s.add_texture(i);
        s.add_object(textured(vec![1], vec![0], i));
    }
    assert!(s.try_build_models_buffers().is_none());
    assert!(s.models_textured_drawing().is_empty());
    s.remove_object(1023);
    let b = s.try_build_models_buffers().unwrap();
    assert_eq!(b.texture_views[1023], Some(1022));
    assert_eq!(s.models_textured_drawing().len(), 1023);
}

#[test]
fn instances_survive_in_place_edits() {
    let mut s = TestScene::new();
    s.add_texture("a");
    s.add_object(colored(vec![1], vec![0]));
    s.add_object(textured(vec![2], vec![0], 0));
    s.add_object(colored(vec![3], vec![0]));
    let b = s.build_models_buffers();
    if let Some(m) = s.get_object(0) {
        m.vertices.push(4);
        m.set_texture(0);
    }
    s.add_object(colored(vec![5], vec![0]));
    let rebuilt = s.build_transform_buffers();
    assert_eq!(rebuilt, b.instances);
    for m in s.models_textured_drawing().iter().chain(s.models_colored_drawing().iter()) {
        assert_eq!(
            rebuilt[m.index_transform as usize],
            Instance::Mesh { mesh_index: m.mesh_index, texture: m.texture_index }
        );
    }
}
