use vstd::prelude::*;

verus! {

/// A direction the camera can be moved in.
#[derive(Debug, Clone, Copy, PartialEq, Eq, Structural)]
pub enum InputState {
    Up,
    Down,
    Right,
    Left,
}

/// The set of directions whose keys are held down.
#[derive(Debug, Clone, Copy, PartialEq, Eq, Structural)]
pub struct InputSet {
    pub up: bool,
    pub down: bool,
    pub right: bool,
    pub left: bool,
}

/// Camera movement per tick along each held direction, in pixels.
pub const CAMERA_SPEED: i64 = 5;

impl InputSet {
    pub open spec fn has(self, s: InputState) -> bool {
        match s {
            InputState::Up => self.up,
            InputState::Down => self.down,
            InputState::Right => self.right,
            InputState::Left => self.left,
        }
    }

    /// No direction held.
    pub fn empty() -> (r: InputSet)
        ensures
            forall|s: InputState| !r.has(s),
    {
        InputSet { up: false, down: false, right: false, left: false }
    }

    pub fn contains(&self, s: InputState) -> (r: bool)
        ensures
            r == self.has(s),
    {
        match s {
            InputState::Up => self.up,
            InputState::Down => self.down,
            InputState::Right => self.right,
            InputState::Left => self.left,
        }
    }

    pub fn insert(&mut self, s: InputState)
        ensures
            forall|t: InputState| final(self).has(t) == (old(self).has(t) || t == s),
    {
        match s {
            InputState::Up => self.up = true,
            InputState::Down => self.down = true,
            InputState::Right => self.right = true,
            InputState::Left => self.left = true,
        }
    }

    pub fn remove(&mut self, s: InputState)
        ensures
            forall|t: InputState| final(self).has(t) == (old(self).has(t) && t != s),
    {
        match s {
            InputState::Up => self.up = false,
            InputState::Down => self.down = false,
            InputState::Right => self.right = false,
            InputState::Left => self.left = false,
        }
    }

    /// The held set after a key of `kind` was pressed or released.
    pub fn with_key(self, kind: InputState, pressed: bool) -> (r: InputSet)
        ensures
            forall|t: InputState|
                r.has(t) == if t == kind {
                    pressed
                } else {
                    self.has(t)
                },
    {
        let mut r = self;
        if pressed {
            r.insert(kind);
        } else {
            r.remove(kind);
        }
        r
    }
}

/// The camera offset after one tick: up adds `speed` to `y`, down takes it
/// away; left adds `speed` to `x`, right takes it away.
pub open spec fn moved_offset(offset: (i64, i64), input: InputSet, speed: i64) -> (int, int) {
    (
        offset.0 + (if input.left { speed as int } else { 0 }) - (if input.right { speed as int } else { 0 }),
        offset.1 + (if input.up { speed as int } else { 0 }) - (if input.down { speed as int } else { 0 }),
    )
}

/// Whether a coordinate can be held in `i64`.
pub open spec fn fits_i64(v: int) -> bool {
    i64::MIN <= v <= i64::MAX
}

/// Moves the camera by `speed` pixels along each held direction.
pub fn move_camera(offset: (i64, i64), input: InputSet, speed: i64) -> (r: (i64, i64))
    requires
        0 <= speed,
        fits_i64(moved_offset(offset, input, speed).0),
        fits_i64(moved_offset(offset, input, speed).1),
    ensures
        (r.0 as int, r.1 as int) == moved_offset(offset, input, speed),
{
    let s = speed as i128;
    let mut x = offset.0 as i128;
    let mut y = offset.1 as i128;
    if input.contains(InputState::Up) {
        y = y + s;
    }
    if input.contains(InputState::Down) {
        y = y - s;
    }
    if input.contains(InputState::Right) {
        x = x - s;
    }
    if input.contains(InputState::Left) {
        x = x + s;
    }
    (x as i64, y as i64)
}

} // verus!
