use world_viewer::chunk::{Chunk, ChunkKey, SizedIteratorWrapper, CHUNK_SIZE};
use world_viewer::colour::Colour;
use world_viewer::input::{move_camera, InputSet, InputState, CAMERA_SPEED};

#[test]
fn colour_is_opaque_and_in_rgba_order() {
    let c = Colour::new(0, 70, 170);
    assert_eq!(c.a, 255);
    assert_eq!(c.as_array(), [0, 70, 170, 255]);
}

#[test]
fn chunk_key_holds_its_coordinates() {
    let k = ChunkKey::new(-4, 9);
    assert_eq!((k.x, k.y), (-4, 9));
    assert!(ChunkKey::new(1, 5) < ChunkKey::new(2, 0));
}

#[test]
fn chunk_needs_a_complete_grid() {
    let c = Colour::new(1, 1, 1);
    assert!(Chunk::new(ChunkKey::new(0, 0), vec![vec![c; CHUNK_SIZE]; CHUNK_SIZE - 1]).is_none());
    let mut rows = vec![vec![c; CHUNK_SIZE]; CHUNK_SIZE];
    rows[3].pop();
    assert!(Chunk::new(ChunkKey::new(0, 0), rows).is_none());
}

#[test]
fn texture_is_row_major_rgba() {
    let mut rows = vec![vec![Colour::new(0, 0, 0); CHUNK_SIZE]; CHUNK_SIZE];
    rows[0][1] = Colour::new(10, 20, 30);
    rows[1][0] = Colour::new(40, 50, 60);
    let chunk = Chunk::new(ChunkKey::new(0, 0), rows).unwrap();
    let mut it = chunk.texture();
    let mut bytes = Vec::new();
    while let Some(b) = it.next() {
        bytes.push(b);
    }
    assert_eq!(bytes.len(), 4 * CHUNK_SIZE * CHUNK_SIZE);
    assert_eq!(&bytes[4..8], &[10, 20, 30, 255]);
    let second_row = 4 * CHUNK_SIZE;
    assert_eq!(&bytes[second_row..second_row + 4], &[40, 50, 60, 255]);
    assert_eq!(it.size_hint(), (0, Some(0)));
}

#[test]
fn sized_wrapper_hands_out_in_order() {
    let mut it = SizedIteratorWrapper::new(vec![3, 1, 2], 3);
    assert_eq!(it.size_hint(), (3, Some(3)));
    assert_eq!(it.next(), Some(3));
    assert_eq!(it.size_hint(), (2, Some(2)));
    assert_eq!(it.next(), Some(1));
    assert_eq!(it.next(), Some(2));
    assert_eq!(it.next(), None);
    assert_eq!(it.size_hint(), (0, Some(0)));
}

#[test]
fn keys_press_and_release_directions() {
    let held = InputSet::empty().with_key(InputState::Up, true).with_key(InputState::Left, true);
    assert!(held.contains(InputState::Up) && held.contains(InputState::Left));
    assert!(!held.contains(InputState::Down));
    let released = held.with_key(InputState::Up, false);
    assert!(!released.contains(InputState::Up) && released.contains(InputState::Left));
}

#[test]
fn camera_moves_by_speed() {
    let up_left = InputSet { up: true, down: false, right: false, left: true };
    assert_eq!(move_camera((0, 0), up_left, CAMERA_SPEED), (5, 5));
    let down_right = InputSet { up: false, down: true, right: true, left: false };
    assert_eq!(move_camera((10, 10), down_right, CAMERA_SPEED), (5, 5));
    let all = InputSet { up: true, down: true, right: true, left: true };
    assert_eq!(move_camera((7, -7), all, CAMERA_SPEED), (7, -7));
}
