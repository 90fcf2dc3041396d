use vstd::prelude::*;

verus! {

/// The keys that the renderer distinguishes; every other key is `Other`.
#[derive(Clone, Copy, Debug, PartialEq, Eq, Structural)]
pub enum KeyCode {
    KeyW,
    ArrowUp,
    KeyA,
    ArrowLeft,
    KeyS,
    ArrowDown,
    KeyD,
    ArrowRight,
    Space,
    ShiftLeft,
    KeyX,
    ControlLeft,
    Escape,
    Other,
}

/// A direction of camera movement driven by a held key.
#[derive(Clone, Copy, Debug, PartialEq, Eq, Structural)]
pub enum Direction {
    Forward,
    Backward,
    Left,
    Right,
    Up,
    Down,
}

/// The direction that a key drives, if any.
pub open spec fn key_direction(code: KeyCode) -> Option<Direction> {
    match code {
        KeyCode::KeyW | KeyCode::ArrowUp => Some(Direction::Forward),
        KeyCode::KeyA | KeyCode::ArrowLeft => Some(Direction::Left),
        KeyCode::KeyS | KeyCode::ArrowDown => Some(Direction::Backward),
        KeyCode::KeyD | KeyCode::ArrowRight => Some(Direction::Right),
        KeyCode::Space | KeyCode::ShiftLeft => Some(Direction::Up),
        KeyCode::KeyX | KeyCode::ControlLeft => Some(Direction::Down),
        _ => None,
    }
}

/// Holds the movement speed, the mouse sensitivity and which movement keys
/// are held down.
pub struct CameraController<F> {
    speed: F,
    sensitivity: F,
    is_forward_pressed: bool,
    is_backward_pressed: bool,
    is_left_pressed: bool,
    is_right_pressed: bool,
    is_up_pressed: bool,
    is_down_pressed: bool,
}

/// The signed contribution of a pair of opposite keys to one movement axis.
pub open spec fn axis(positive: bool, negative: bool) -> int {
    (if positive { 1int } else { 0int }) - (if negative { 1int } else { 0int })
}

/// `after` holds the keys of `before`, except that the direction that `code`
/// drives (if any) is held exactly when `is_pressed`.
pub open spec fn key_applied<F>(
    before: CameraController<F>,
    after: CameraController<F>,
    code: KeyCode,
    is_pressed: bool,
) -> bool {
    forall|d: Direction|
        #[trigger] after.pressed(d) == if key_direction(code) == Some(d) {
            is_pressed
        } else {
            before.pressed(d)
        }
}

/// How the held keys move the camera: each axis is -1, 0 or 1.
#[derive(Clone, Copy, Debug, PartialEq, Eq, Structural)]
pub struct Movement {
    pub forward: i8,
    pub right: i8,
    pub up: i8,
}

impl<F> CameraController<F> {
    /// Whether the key for direction `d` is held.
    pub closed spec fn pressed(self, d: Direction) -> bool {
        match d {
            Direction::Forward => self.is_forward_pressed,
            Direction::Backward => self.is_backward_pressed,
            Direction::Left => self.is_left_pressed,
            Direction::Right => self.is_right_pressed,
            Direction::Up => self.is_up_pressed,
            Direction::Down => self.is_down_pressed,
        }
    }

    pub closed spec fn spec_speed(self) -> F {
        self.speed
    }

    pub closed spec fn spec_sensitivity(self) -> F {
        self.sensitivity
    }

    /// The movement that the held keys ask for.
    pub open spec fn spec_movement(self) -> Movement {
        Movement {
            forward: axis(self.pressed(Direction::Forward), self.pressed(Direction::Backward)) as i8,
            right: axis(self.pressed(Direction::Right), self.pressed(Direction::Left)) as i8,
            up: axis(self.pressed(Direction::Up), self.pressed(Direction::Down)) as i8,
        }
    }

    /// A controller with the given speed and sensitivity and no key held.
    pub fn new(speed: F, sensitivity: F) -> (res: Self)
        ensures
            res.spec_speed() == speed,
            res.spec_sensitivity() == sensitivity,
            forall|d: Direction| !#[trigger] res.pressed(d),
    {
        Self {
            speed,
            sensitivity,
            is_forward_pressed: false,
            is_backward_pressed: false,
            is_left_pressed: false,
            is_right_pressed: false,
            is_up_pressed: false,
            is_down_pressed: false,
        }
    }

    /// Records that `code` went down (`is_pressed`) or up. Returns whether the
    /// key is a movement key; other keys change nothing.
    pub fn handle_key(&mut self, code: KeyCode, is_pressed: bool) -> (handled: bool)
        ensures
            handled == (key_direction(code) is Some),
            final(self).spec_speed() == old(self).spec_speed(),
            final(self).spec_sensitivity() == old(self).spec_sensitivity(),
            key_applied(*old(self), *final(self), code, is_pressed),
    {
        match code {
            KeyCode::KeyW | KeyCode::ArrowUp => {
                self.is_forward_pressed = is_pressed;
                true
            },
            KeyCode::KeyA | KeyCode::ArrowLeft => {
                self.is_left_pressed = is_pressed;
                true
            },
            KeyCode::KeyS | KeyCode::ArrowDown => {
                self.is_backward_pressed = is_pressed;
                true
            },
            KeyCode::KeyD | KeyCode::ArrowRight => {
                self.is_right_pressed = is_pressed;
                true
            },
            KeyCode::Space | KeyCode::ShiftLeft => {
                self.is_up_pressed = is_pressed;
                true
            },
            KeyCode::KeyX | KeyCode::ControlLeft => {
                self.is_down_pressed = is_pressed;
                true
            },
            _ => false,
        }
    }

    /// The movement that the held keys ask for: along each axis, +1 when only
    /// the positive key is held, -1 when only the negative one is, else 0.
    pub fn movement(&self) -> (m: Movement)
        ensures
            m == self.spec_movement(),
            m.forward == (if self.pressed(Direction::Forward) { 1int } else { 0int }) - (if self.pressed(
                Direction::Backward,
            ) {
                1int
            } else {
                0int
            }),
            m.right == (if self.pressed(Direction::Right) { 1int } else { 0int }) - (if self.pressed(
                Direction::Left,
            ) {
                1int
            } else {
                0int
            }),
            m.up == (if self.pressed(Direction::Up) { 1int } else { 0int }) - (if self.pressed(
                Direction::Down,
            ) {
                1int
            } else {
                0int
            }),
    {
        Movement {
            forward: Self::axis_of(self.is_forward_pressed, self.is_backward_pressed),
            right: Self::axis_of(self.is_right_pressed, self.is_left_pressed),
            up: Self::axis_of(self.is_up_pressed, self.is_down_pressed),
        }
    }

    /// The distance the camera moves per update.
    pub fn speed(&self) -> (s: F) where F: Copy
        ensures
            s == self.spec_speed(),
    {
        self.speed
    }

    /// The rotation per unit of mouse movement.
    pub fn sensitivity(&self) -> (s: F) where F: Copy
        ensures
            s == self.spec_sensitivity(),
    {
        self.sensitivity
    }

    fn axis_of(positive: bool, negative: bool) -> (a: i8)
        ensures
            a == axis(positive, negative),
    {
        if positive && !negative {
            1
        } else if negative && !positive {
            -1
        } else {
            0
        }
    }
}

/// Handles a key going down or up in the running renderer: the camera
/// controller records it, and the result says whether the renderer should
/// close, which a press of Escape asks for.
pub fn handle_key_event<F>(controller: &mut CameraController<F>, code: KeyCode, is_pressed: bool) -> (exit: bool)
    ensures
        exit == (code == KeyCode::Escape && is_pressed),
        final(controller).spec_speed() == old(controller).spec_speed(),
        final(controller).spec_sensitivity() == old(controller).spec_sensitivity(),
        key_applied(*old(controller), *final(controller), code, is_pressed),
{
    let exit = match (code, is_pressed) {
        (KeyCode::Escape, true) => true,
        _ => false,
    };
    let _ = controller.handle_key(code, is_pressed);
    exit
}

/// Pressing a key that was up and then releasing it leaves every movement
/// key as it was before the press.
pub proof fn law_release_undoes_press<F>(
    c0: CameraController<F>,
    c1: CameraController<F>,
    c2: CameraController<F>,
    code: KeyCode,
)
    requires
        key_direction(code) matches Some(d) ==> !c0.pressed(d),
        key_applied(c0, c1, code, true),
        key_applied(c1, c2, code, false),
    ensures
        forall|d: Direction| #[trigger] c2.pressed(d) == c0.pressed(d),
{
    assert forall|d: Direction| #[trigger] c2.pressed(d) == c0.pressed(d) by {
        assert(c1.pressed(d) == if key_direction(code) == Some(d) { true } else { c0.pressed(d) });
    }
}

/// Each movement axis is decided by its own pair of keys alone: +1 when only
/// the positive key (forward, right, up) is held, -1 when only the negative
/// one (backward, left, down) is, and 0 when both or neither are, whatever
/// the other keys are.
pub proof fn law_movement_axes<F>(c: CameraController<F>)
    ensures
        c.spec_movement().forward == (if c.pressed(Direction::Forward) { 1int } else { 0int }) - (
        if c.pressed(Direction::Backward) {
            1int
        } else {
            0int
        }),
        c.spec_movement().right == (if c.pressed(Direction::Right) { 1int } else { 0int }) - (
        if c.pressed(Direction::Left) {
            1int
        } else {
            0int
        }),
        c.spec_movement().up == (if c.pressed(Direction::Up) { 1int } else { 0int }) - (if c.pressed(
            Direction::Down,
        ) {
            1int
        } else {
            0int
        }),
        c.pressed(Direction::Right) && c.pressed(Direction::Left) ==> c.spec_movement().right == 0,
        c.pressed(Direction::Forward) && c.pressed(Direction::Backward) ==> c.spec_movement().forward
            == 0,
        c.pressed(Direction::Up) && c.pressed(Direction::Down) ==> c.spec_movement().up == 0,
{
}

} // verus!
