use wgpu_project::camera::{handle_key_event, CameraController, KeyCode, Movement};

fn still() -> Movement {
    Movement { forward: 0, right: 0, up: 0 }
}

#[test]
fn new_controller_holds_no_key() {
    let c = CameraController::new(0.08f32, 0.01f32);
    assert_eq!(c.movement(), still());
    assert_eq!(c.speed(), 0.08f32);
    assert_eq!(c.sensitivity(), 0.01f32);
}

#[test]
fn each_movement_key_drives_its_axis() {
    let cases = [
        (KeyCode::KeyW, Movement { forward: 1, right: 0, up: 0 }),
        (KeyCode::ArrowUp, Movement { forward: 1, right: 0, up: 0 }),
        (KeyCode::KeyS, Movement { forward: -1, right: 0, up: 0 }),
        (KeyCode::ArrowDown, Movement { forward: -1, right: 0, up: 0 }),
        (KeyCode::KeyD, Movement { forward: 0, right: 1, up: 0 }),
        (KeyCode::ArrowRight, Movement { forward: 0, right: 1, up: 0 }),
        (KeyCode::KeyA, Movement { forward: 0, right: -1, up: 0 }),
        (KeyCode::ArrowLeft, Movement { forward: 0, right: -1, up: 0 }),
        (KeyCode::Space, Movement { forward: 0, right: 0, up: 1 }),
        (KeyCode::ShiftLeft, Movement { forward: 0, right: 0, up: 1 }),
        (KeyCode::KeyX, Movement { forward: 0, right: 0, up: -1 }),
        (KeyCode::ControlLeft, Movement { forward: 0, right: 0, up: -1 }),
    ];
    for (code, expected) in cases {
        let mut c = CameraController::new(1u8, 1u8);
        assert!(c.handle_key(code, true));
        assert_eq!(c.movement(), expected);
        assert!(c.handle_key(code, false));
        assert_eq!(c.movement(), still());
    }
}

#[test]
fn other_keys_are_not_handled() {
    let mut c = CameraController::new(1u8, 1u8);
    assert!(c.handle_key(KeyCode::KeyW, true));
    assert!(!c.handle_key(KeyCode::Other, true));
    assert!(!c.handle_key(KeyCode::Escape, true));
    assert_eq!(c.movement(), Movement { forward: 1, right: 0, up: 0 });
}

#[test]
fn opposite_keys_cancel() {
    let mut c = CameraController::new(1u8, 1u8);
    c.handle_key(KeyCode::KeyW, true);
    c.handle_key(KeyCode::KeyS, true);
    c.handle_key(KeyCode::KeyD, true);
    c.handle_key(KeyCode::Space, true);
    c.handle_key(KeyCode::KeyX, true);
    assert_eq!(c.movement(), Movement { forward: 0, right: 1, up: 0 });
}

#[test]
fn release_undoes_press() {
    let mut c = CameraController::new(1u8, 1u8);
    c.handle_key(KeyCode::KeyA, true);
    let before = c.movement();
    c.handle_key(KeyCode::Space, true);
    c.handle_key(KeyCode::ShiftLeft, false);
    assert_eq!(c.movement(), before);
}

#[test]
fn escape_press_asks_to_exit() {
    let mut c = CameraController::new(1u8, 1u8);
    assert!(handle_key_event(&mut c, KeyCode::Escape, true));
    assert!(!handle_key_event(&mut c, KeyCode::Escape, false));
    assert!(!handle_key_event(&mut c, KeyCode::KeyW, true));
    assert_eq!(c.movement(), Movement { forward: 1, right: 0, up: 0 });
}
