use world_viewer::cache::{ChunkCache, TextureEntry};
use world_viewer::chunk::{Chunk, ChunkKey, CHUNK_SIZE};
use world_viewer::colour::Colour;
use world_viewer::generator::Worldgen;
use world_viewer::window::{chunk_position, viewport_bounds, ChunkWindow, CHUNK_PIXEL_SIZE};
use world_viewer::world::World;
use worldgen::noise::perlin::PerlinNoise;
use worldgen::noisemap::{NoiseMap, NoiseMapGenerator, Seed, Step};
use worldgen::world::tile::{Constraint, ConstraintType};
use worldgen::world::Tile;

fn window_at(offset: (i64, i64), bounds: (u32, u32)) -> ChunkWindow {
    ChunkWindow::from_camera(offset, bounds, CHUNK_PIXEL_SIZE).unwrap()
}

fn generate(generator: &Worldgen, key: ChunkKey) -> Chunk {
    let rows = generator.tile_world().generate(key.x, key.y).unwrap();
    Chunk::new(key, rows).unwrap()
}

fn grid(colour: Colour) -> Vec<Vec<Colour>> {
    vec![vec![colour; CHUNK_SIZE]; CHUNK_SIZE]
}

#[test]
fn first_tick_requests_whole_window() {
    let window = window_at((0, 0), (4, 3));
    assert_eq!((window.min_x, window.max_x), (-1, 5));
    assert_eq!((window.min_y, window.max_y), (-1, 4));
    let mut cache: ChunkCache<u32> = ChunkCache::new();
    let requested = cache.reconcile(&window);
    assert_eq!(requested.len(), 42);
    assert_eq!(requested[0], ChunkKey::new(-1, -1));
    assert_eq!(requested[1], ChunkKey::new(-1, 0));
    assert_eq!(requested[41], ChunkKey::new(5, 4));
    for x in -1..=5 {
        for y in -1..=4 {
            assert!(matches!(cache.get(ChunkKey::new(x, y)), Some(TextureEntry::Requested)));
        }
    }
    assert!(!cache.contains(ChunkKey::new(6, 0)));
    assert!(!cache.contains(ChunkKey::new(0, -2)));
}

#[test]
fn reconcile_twice_requests_nothing_more() {
    let window = window_at((1234, -987), (4, 3));
    let mut cache: ChunkCache<u32> = ChunkCache::new();
    let first = cache.reconcile(&window);
    assert_eq!(first.len(), 42);
    let second = cache.reconcile(&window);
    assert!(second.is_empty());
}

#[test]
fn small_camera_move_shifts_window_by_at_most_one() {
    let a = window_at((0, 0), (4, 3));
    for d in [1i64, 100, 149, 150, 151, 299, -1, -150, -151, -299] {
        let b = window_at((d, d), (4, 3));
        assert!((a.min_x - b.min_x).abs() <= 1);
        assert!((a.min_y - b.min_y).abs() <= 1);
        assert_eq!(b.max_x - b.min_x, 6);
        assert_eq!(b.max_y - b.min_y, 5);
    }
    let c = window_at((-440, 0), (4, 3));
    let d = window_at((-141, 0), (4, 3));
    assert!((c.min_x - d.min_x).abs() <= 1);
}

#[test]
fn window_rounds_to_nearest_chunk() {
    assert_eq!(window_at((149, 0), (4, 3)).min_x, -1);
    assert_eq!(window_at((150, 0), (4, 3)).min_x, -2);
    assert_eq!(window_at((-150, 0), (4, 3)).min_x, -1);
    assert_eq!(window_at((-151, 0), (4, 3)).min_x, 0);
    assert_eq!(window_at((0, -450), (4, 3)).min_y, 0);
    assert_eq!(window_at((0, -451), (4, 3)).min_y, 1);
}

#[test]
fn window_beyond_key_range_is_refused() {
    assert!(ChunkWindow::from_camera((i64::MIN, 0), (4, 3), 1).is_none());
    assert!(ChunkWindow::from_camera((0, i64::MIN), (4, 3), 1).is_none());
    assert_eq!(ChunkWindow::from_camera((i64::MAX, 0), (4, 3), 1).unwrap().min_x, i64::MIN);
    assert!(ChunkWindow::from_camera((i64::MIN, i64::MAX), (4, 3), CHUNK_PIXEL_SIZE).is_some());
}

#[test]
fn camera_moves_one_chunk_window_shifts_one_key() {
    let bounds = (4, 3);
    let before = window_at((0, 0), bounds);
    let mut cache: ChunkCache<u32> = ChunkCache::new();
    let keys = cache.reconcile(&before);
    for (i, k) in keys.iter().enumerate() {
        cache.complete(*k, i as u32);
    }
    let after = window_at((300, 0), bounds);
    assert_eq!((after.min_x, after.max_x), (before.min_x - 1, before.max_x - 1));
    assert_eq!((after.min_y, after.max_y), (before.min_y, before.max_y));
    let new_keys = cache.reconcile(&after);
    assert_eq!(new_keys.len(), 6);
    assert!(new_keys.iter().all(|k| k.x == -2));
    for y in -1..=4 {
        assert!(matches!(cache.get(ChunkKey::new(5, y)), Some(TextureEntry::Valid(_))));
    }
    let draws = cache.draw_list(&after, (300, 0), CHUNK_PIXEL_SIZE);
    assert_eq!(draws.len(), 36);
    assert!(draws.iter().all(|d| d.key.x != 5 && d.key.x != -2));
}

#[test]
fn draw_position_is_offset_plus_key_times_size() {
    assert_eq!(chunk_position((10, -20), ChunkKey::new(3, -2), 300), (910, -620));
    assert_eq!(chunk_position((0, 0), ChunkKey::new(-1, 4), 300), (-300, 1200));
}

#[test]
fn draw_list_skips_requested_and_ignores_arrival_order() {
    let window = window_at((0, 0), (1, 1));
    let mut a: ChunkCache<u32> = ChunkCache::new();
    let mut b: ChunkCache<u32> = ChunkCache::new();
    a.reconcile(&window);
    b.reconcile(&window);
    a.complete(ChunkKey::new(1, 0), 7);
    a.complete(ChunkKey::new(0, 1), 8);
    b.complete(ChunkKey::new(0, 1), 8);
    b.complete(ChunkKey::new(1, 0), 7);
    let da = a.draw_list(&window, (5, 6), 300);
    let db = b.draw_list(&window, (5, 6), 300);
    assert_eq!(da.len(), 2);
    assert_eq!(da[0].key, ChunkKey::new(0, 1));
    assert_eq!(da[0].position, (5, 306));
    assert_eq!(*da[0].texture, 8);
    assert_eq!(da[1].key, ChunkKey::new(1, 0));
    assert_eq!(da[1].position, (305, 6));
    assert_eq!(*da[1].texture, 7);
    let pa: Vec<_> = da.iter().map(|d| (d.key, d.position, *d.texture)).collect();
    let pb: Vec<_> = db.iter().map(|d| (d.key, d.position, *d.texture)).collect();
    assert_eq!(pa, pb);
}

#[test]
fn two_results_in_any_order_both_become_ready() {
    let (mut world, ends) = World::new();
    let mut cache: ChunkCache<u32> = ChunkCache::new();
    let window = ChunkWindow { min_x: 0, max_x: 1, min_y: 0, max_y: 0 };
    let sent = world.request_missing(&mut cache, &window).unwrap();
    assert_eq!(sent, vec![ChunkKey::new(0, 0), ChunkKey::new(1, 0)]);
    let first = ends.requests.try_recv().unwrap();
    let second = ends.requests.try_recv().unwrap();
    assert_eq!((first, second), (ChunkKey::new(0, 0), ChunkKey::new(1, 0)));
    // Two workers take one key each; the second one finishes first.
    let generator = Worldgen::new(vec![], Colour::new(1, 2, 3));
    let done_second = generate(&generator, second);
    let done_first = generate(&generator, first);
    ends.results.send(done_second).unwrap();
    ends.results.send(done_first).unwrap();
    let mut arrived = 0u32;
    while let Some(chunk) = world.get_chunk_result() {
        arrived += 1;
        cache.complete(chunk.key(), arrived);
    }
    assert_eq!(arrived, 2);
    assert!(matches!(cache.get(ChunkKey::new(1, 0)), Some(TextureEntry::Valid(1))));
    assert!(matches!(cache.get(ChunkKey::new(0, 0)), Some(TextureEntry::Valid(2))));
    assert!(world.request_missing(&mut cache, &window).unwrap().is_empty());
}

#[test]
fn one_request_is_polled_until_ready() {
    let (mut world, ends) = World::new();
    let mut cache: ChunkCache<u32> = ChunkCache::new();
    let key = ChunkKey::new(-7, 11);
    let window = ChunkWindow { min_x: -7, max_x: -7, min_y: 11, max_y: 11 };
    assert_eq!(world.request_missing(&mut cache, &window).unwrap(), vec![key]);
    assert!(matches!(cache.get(key), Some(TextureEntry::Requested)));
    let generator = Worldgen::new(vec![], Colour::new(5, 5, 5));
    let asked = ends.requests.try_recv().unwrap();
    ends.results.send(generate(&generator, asked)).unwrap();
    let mut polls = 0;
    loop {
        polls += 1;
        assert!(polls < 1000);
        if let Some(chunk) = world.get_chunk_result() {
            if chunk.key() == key {
                cache.complete(chunk.key(), 42);
                break;
            }
        }
    }
    assert!(matches!(cache.get(key), Some(TextureEntry::Valid(42))));
    assert!(cache.reconcile(&window).is_empty());
    assert!(matches!(cache.get(key), Some(TextureEntry::Valid(42))));
    assert!(ends.requests.try_recv().is_err());
}

#[test]
fn request_fails_once_workers_are_gone() {
    let (mut world, ends) = World::new();
    drop(ends);
    assert_eq!(world.request_chunk(ChunkKey::new(4, 5)), Err(ChunkKey::new(4, 5)));
    assert!(world.get_chunk_result().is_none());
    let mut cache: ChunkCache<u32> = ChunkCache::new();
    let window = ChunkWindow { min_x: 0, max_x: 0, min_y: 0, max_y: 0 };
    assert_eq!(world.request_missing(&mut cache, &window), Err(ChunkKey::new(0, 0)));
    assert!(matches!(cache.get(ChunkKey::new(0, 0)), Some(TextureEntry::Requested)));
}

#[test]
fn generator_produces_complete_chunk_for_key() {
    let sand = Colour::new(190, 180, 130);
    let generator = Worldgen::new(vec![], sand);
    let chunk = generate(&generator, ChunkKey::new(-3, 7));
    assert_eq!(chunk.key(), ChunkKey::new(-3, 7));
    let rows = generator.tile_world().generate(2, 2).unwrap();
    assert_eq!(rows.len(), CHUNK_SIZE);
    assert!(rows.iter().all(|r| r.len() == CHUNK_SIZE && r.iter().all(|c| c.as_array() == sand.as_array())));
    let mut bytes = chunk.texture();
    assert_eq!(bytes.size_hint(), (4 * CHUNK_SIZE * CHUNK_SIZE, Some(4 * CHUNK_SIZE * CHUNK_SIZE)));
    assert_eq!(bytes.next(), Some(190));
    assert_eq!(bytes.next(), Some(180));
    assert_eq!(bytes.next(), Some(130));
    assert_eq!(bytes.next(), Some(255));
}

#[test]
fn generator_gives_texture_bytes_of_key() {
    let generator = Worldgen::new(vec![], Colour::new(20, 220, 100));
    let mut bytes = generate(&generator, ChunkKey::new(1, -1)).texture();
    assert_eq!(bytes.size_hint().0, 4 * CHUNK_SIZE * CHUNK_SIZE);
    let mut count = 0usize;
    while let Some(b) = bytes.next() {
        assert_eq!(b, [20, 220, 100, 255][count % 4]);
        count += 1;
    }
    assert_eq!(count, 4 * CHUNK_SIZE * CHUNK_SIZE);
}

#[test]
fn polled_chunk_keeps_its_key_and_grid() {
    let (mut world, ends) = World::new();
    let mut rows = grid(Colour::new(0, 0, 0));
    rows[0][0] = Colour::new(9, 8, 7);
    ends.results.send(Chunk::new(ChunkKey::new(2, 3), rows).unwrap()).unwrap();
    let chunk = world.get_chunk_result().unwrap();
    assert_eq!(chunk.key(), ChunkKey::new(2, 3));
    let mut bytes = chunk.texture();
    assert_eq!(bytes.next(), Some(9));
    assert!(world.get_chunk_result().is_none());
}

#[test]
fn generator_without_rules_gives_default_everywhere() {
    let default = Colour::new(220, 220, 220);
    let generator = Worldgen::new(vec![], default);
    let rows = generator.tile_world().generate(-4, 9).unwrap();
    assert_eq!(rows.len(), CHUNK_SIZE);
    assert!(rows.iter().all(|r| r.len() == CHUNK_SIZE && r.iter().all(|c| c.as_array() == [220, 220, 220, 255])));
}

#[test]
fn generator_tries_rules_before_default() {
    let noise = NoiseMap::new(PerlinNoise::new())
        .set(Seed::of_value(7))
        .set(Step::of(0.02, 0.02));
    let always = Constraint::new(Box::new(noise.clone()), ConstraintType::LT(10.0));
    let never = Constraint::new(Box::new(noise), ConstraintType::GT(10.0));
    let first = Tile::new(Colour::new(1, 2, 3)).when(never);
    let second = Tile::new(Colour::new(4, 5, 6)).when(always);
    let generator = Worldgen::new(vec![first, second], Colour::new(9, 9, 9));
    let rows = generator.tile_world().generate(3, -2).unwrap();
    assert!(rows.iter().all(|r| r.iter().all(|c| c.as_array() == [4, 5, 6, 255])));
}

#[test]
fn viewport_bounds_counts_whole_chunks() {
    assert_eq!(viewport_bounds(1280, 720, 300), (4, 2));
    assert_eq!(viewport_bounds(299, 300, 300), (0, 1));
}
