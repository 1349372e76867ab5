use vstd::prelude::*;
use worldgen::world::{Size, Tile, World as TileWorld};
use crate::chunk::CHUNK_SIZE;
use crate::colour::Colour;

verus! {

#[verifier::external_type_specification]
#[verifier::external_body]
#[verifier::reject_recursive_types(T)]
pub struct ExTileWorld<T>(TileWorld<T>);

#[verifier::external_type_specification]
#[verifier::external_body]
#[verifier::reject_recursive_types(T)]
pub struct ExTile<T>(Tile<T>);

/// How many tiles a worldgen world tries, in order.
pub uninterp spec fn tile_count(world: TileWorld<Colour>) -> nat;

/// Whether a worldgen world holds a tile without constraints, which matches
/// every point.
pub uninterp spec fn has_unconditional_tile(world: TileWorld<Colour>) -> bool;

/// The chunk size of a worldgen world, in tiles: `(width, height)`.
pub uninterp spec fn tile_area(world: TileWorld<Colour>) -> (i64, i64);

/// Whether a worldgen tile has no constraints.
pub uninterp spec fn is_unconditional(tile: Tile<Colour>) -> bool;

/// Relies on worldgen's `World::new`: a world with no tiles, whose size is
/// left at `Size`'s default of 0 by 0.
#[verifier::external_body]
fn empty_world() -> (r: TileWorld<Colour>)
    ensures
        tile_count(r) == 0,
        !has_unconditional_tile(r),
        tile_area(r) == (0i64, 0i64),
{
    TileWorld::new()
}

/// Relies on worldgen's `World::set_size` (with `Size::of`): the size is
/// replaced, the tiles are kept.
#[verifier::external_body]
fn sized_world(world: TileWorld<Colour>, width: i64, height: i64) -> (r: TileWorld<Colour>)
    ensures
        tile_count(r) == tile_count(world),
        has_unconditional_tile(r) == has_unconditional_tile(world),
        tile_area(r) == (width, height),
{
    world.set_size(Size::of(width, height))
}

/// Relies on worldgen's `World::add`: the tile is pushed after the others,
/// the size is kept.
#[verifier::external_body]
fn world_with_tile(world: TileWorld<Colour>, tile: Tile<Colour>) -> (r: TileWorld<Colour>)
    ensures
        tile_count(r) == tile_count(world) + 1,
        has_unconditional_tile(r) == (has_unconditional_tile(world) || is_unconditional(tile)),
        tile_area(r) == tile_area(world),
{
    world.add(tile)
}

/// Relies on worldgen's `Tile::new`: a tile of that colour with no
/// constraints.
#[verifier::external_body]
fn unconditional_tile(colour: Colour) -> (r: Tile<Colour>)
    ensures
        is_unconditional(r),
{
    Tile::new(colour)
}

/// The terrain generator's tile world: `CHUNK_SIZE` square chunks whose
/// tiles are tried in order, the first whose constraints hold giving the
/// colour, and whose last tile is an unconditional default. Immutable once
/// built, so workers may share it.
///
/// Generating a chunk (`World::generate`) is left to the caller: whether it
/// returns depends on the noise maps inside the rules, whose steps are
/// floats that this library cannot see. The caller hands the rows to
/// `Chunk::new`.
pub struct Worldgen {
    world: TileWorld<Colour>,
}

impl Worldgen {
    #[verifier::type_invariant]
    spec fn well_formed(self) -> bool {
        &&& tile_area(self.world) == (CHUNK_SIZE as i64, CHUNK_SIZE as i64)
        &&& has_unconditional_tile(self.world)
    }

    /// How many tile rules the generator tries, the default included.
    pub closed spec fn rule_count(&self) -> nat {
        tile_count(self.world)
    }

    /// A generator of `CHUNK_SIZE` square chunks that tries `rules` in the
    /// given order and then gives `default`.
    pub fn new(rules: Vec<Tile<Colour>>, default: Colour) -> (g: Worldgen)
        ensures
            g.rule_count() == rules@.len() + 1,
    {
        let ghost n = rules@.len();
        let mut rules = rules;
        let mut world = sized_world(empty_world(), CHUNK_SIZE as i64, CHUNK_SIZE as i64);
        while rules.len() > 0
            invariant
                tile_count(world) + rules@.len() == n,
                tile_area(world) == (CHUNK_SIZE as i64, CHUNK_SIZE as i64),
            decreases rules@.len(),
        {
            let tile = rules.remove(0);
            world = world_with_tile(world, tile);
        }
        world = world_with_tile(world, unconditional_tile(default));
        Worldgen { world }
    }

    /// The tile world: chunks of `CHUNK_SIZE` by `CHUNK_SIZE` tiles, and a
    /// tile that matches everywhere, so every point gets a colour.
    pub fn tile_world(&self) -> (r: &TileWorld<Colour>)
        ensures
            tile_area(*r) == (CHUNK_SIZE as i64, CHUNK_SIZE as i64),
            has_unconditional_tile(*r),
            tile_count(*r) == self.rule_count(),
    {
        proof {
            use_type_invariant(self);
        }
        &self.world
    }
}

} // verus!
