//! Block types of the voxel world and how placed blocks are sorted into chunks.
use vstd::prelude::*;

verus! {

/// The kinds of block a voxel can hold.
#[derive(Clone, Copy, PartialEq, Eq, Hash, Debug, Structural)]
pub enum BlockType {
    Air,
    Bricks,
    Grass,
    Rocks,
    Snow,
    Stone,
    Sand,
    Dirt,
}

/// The textures of the block atlas, in atlas order.
#[derive(Clone, Copy, PartialEq, Eq, Debug, Structural)]
pub enum BlockTexture {
    Bricks,
    Grass,
    Rocks,
    Snow,
    Stone,
    Sand,
    Dirt,
}

/// Number of block types.
pub const NUM_BLOCK_TYPES: usize = 8;

/// Number of textures in the block atlas.
pub const NUM_BLOCK_TEXTURES: usize = 7;

/// The position of a block type in declaration order.
pub open spec fn block_type_index(b: BlockType) -> nat {
    match b {
        BlockType::Air => 0,
        BlockType::Bricks => 1,
        BlockType::Grass => 2,
        BlockType::Rocks => 3,
        BlockType::Snow => 4,
        BlockType::Stone => 5,
        BlockType::Sand => 6,
        BlockType::Dirt => 7,
    }
}

/// The position of a texture in the atlas.
pub open spec fn texture_index(t: BlockTexture) -> nat {
    match t {
        BlockTexture::Bricks => 0,
        BlockTexture::Grass => 1,
        BlockTexture::Rocks => 2,
        BlockTexture::Snow => 3,
        BlockTexture::Stone => 4,
        BlockTexture::Sand => 5,
        BlockTexture::Dirt => 6,
    }
}

/// The index of a block type, as used to look up its mesh.
pub fn index_of_block_type(block_type: BlockType) -> (r: u8)
    ensures
        r == block_type_index(block_type),
        (r as usize) < NUM_BLOCK_TYPES,
{
    match block_type {
        BlockType::Air => 0,
        BlockType::Bricks => 1,
        BlockType::Grass => 2,
        BlockType::Rocks => 3,
        BlockType::Snow => 4,
        BlockType::Stone => 5,
        BlockType::Sand => 6,
        BlockType::Dirt => 7,
    }
}

/// The block type at an index; every index below `NUM_BLOCK_TYPES` names one.
pub fn block_type_of_index(index: u8) -> (r: BlockType)
    requires
        (index as usize) < NUM_BLOCK_TYPES,
    ensures
        block_type_index(r) == index,
{
    match index {
        0 => BlockType::Air,
        1 => BlockType::Bricks,
        2 => BlockType::Grass,
        3 => BlockType::Rocks,
        4 => BlockType::Snow,
        5 => BlockType::Stone,
        6 => BlockType::Sand,
        _ => BlockType::Dirt,
    }
}

/// The atlas column of a texture.
pub fn index_of_texture(block_texture: BlockTexture) -> (r: u8)
    ensures
        r == texture_index(block_texture),
        (r as usize) < NUM_BLOCK_TEXTURES,
{
    match block_texture {
        BlockTexture::Bricks => 0,
        BlockTexture::Grass => 1,
        BlockTexture::Rocks => 2,
        BlockTexture::Snow => 3,
        BlockTexture::Stone => 4,
        BlockTexture::Sand => 5,
        BlockTexture::Dirt => 6,
    }
}

/// The texture at an atlas column; every column below `NUM_BLOCK_TEXTURES` holds one.
pub fn texture_of_index(index: u8) -> (r: BlockTexture)
    requires
        (index as usize) < NUM_BLOCK_TEXTURES,
    ensures
        texture_index(r) == index,
{
    match index {
        0 => BlockTexture::Bricks,
        1 => BlockTexture::Grass,
        2 => BlockTexture::Rocks,
        3 => BlockTexture::Snow,
        4 => BlockTexture::Stone,
        5 => BlockTexture::Sand,
        _ => BlockTexture::Dirt,
    }
}

/// Indices and block types correspond one to one: each index below
/// `NUM_BLOCK_TYPES` names exactly one block type and each block type has one
/// such index; the same holds of textures and atlas columns.
pub proof fn lemma_indices_round_trip(b: BlockType, t: BlockTexture, c: BlockType, u: BlockTexture)
    ensures
        block_type_index(b) < NUM_BLOCK_TYPES,
        texture_index(t) < NUM_BLOCK_TEXTURES,
        block_type_index(b) == block_type_index(c) ==> b == c,
        texture_index(t) == texture_index(u) ==> t == u,
{
}

/// The texture a block type is drawn with; air is not drawn.
pub open spec fn spec_texture_of_block_type(b: BlockType) -> Option<BlockTexture> {
    match b {
        BlockType::Air => None,
        BlockType::Bricks => Some(BlockTexture::Bricks),
        BlockType::Grass => Some(BlockTexture::Grass),
        BlockType::Rocks => Some(BlockTexture::Rocks),
        BlockType::Snow => Some(BlockTexture::Snow),
        BlockType::Stone => Some(BlockTexture::Stone),
        BlockType::Sand => Some(BlockTexture::Sand),
        BlockType::Dirt => Some(BlockTexture::Dirt),
    }
}

/// The texture that a block type's cube mesh is made with, or `None` for air,
/// which has no mesh.
pub fn texture_of_block_type(block_type: BlockType) -> (r: Option<BlockTexture>)
    ensures
        r == spec_texture_of_block_type(block_type),
        r is None <==> block_type == BlockType::Air,
        r matches Some(t) ==> texture_index(t) + 1 == block_type_index(block_type),
        block_type == BlockType::Bricks ==> r == Some(BlockTexture::Bricks),
        block_type == BlockType::Grass ==> r == Some(BlockTexture::Grass),
        block_type == BlockType::Rocks ==> r == Some(BlockTexture::Rocks),
        block_type == BlockType::Snow ==> r == Some(BlockTexture::Snow),
        block_type == BlockType::Stone ==> r == Some(BlockTexture::Stone),
        block_type == BlockType::Sand ==> r == Some(BlockTexture::Sand),
        block_type == BlockType::Dirt ==> r == Some(BlockTexture::Dirt),
{
    match block_type {
        BlockType::Air => None,
        BlockType::Bricks => Some(BlockTexture::Bricks),
        BlockType::Grass => Some(BlockTexture::Grass),
        BlockType::Rocks => Some(BlockTexture::Rocks),
        BlockType::Snow => Some(BlockTexture::Snow),
        BlockType::Stone => Some(BlockTexture::Stone),
        BlockType::Sand => Some(BlockTexture::Sand),
        BlockType::Dirt => Some(BlockTexture::Dirt),
    }
}

/// Whether a voxel hides the faces of its neighbours: every block but air does.
pub fn is_covering(voxel: BlockType) -> (r: bool)
    ensures
        r == (voxel != BlockType::Air),
{
    match voxel {
        BlockType::Air => false,
        _ => true,
    }
}

/// Every solid block type is drawn with the texture of the same name: the
/// textures are the block types without air, in the same order, so the
/// texture's atlas column is one less than the block type's index; and no two
/// block types share a texture.
pub proof fn lemma_textures_named_like_blocks(b: BlockType, c: BlockType)
    ensures
        spec_texture_of_block_type(b) matches Some(t) ==> texture_index(t) + 1 == block_type_index(b),
        b != BlockType::Air ==> spec_texture_of_block_type(b) is Some,
        b != c && b != BlockType::Air ==> spec_texture_of_block_type(b) != spec_texture_of_block_type(c),
{
}

/// The block registry is consistent: exactly the voxels that cover their
/// neighbours have a textured cube mesh.
pub proof fn lemma_covering_blocks_have_meshes(b: BlockType)
    ensures
        (b != BlockType::Air) <==> spec_texture_of_block_type(b) is Some,
{
}

/// The array `[0, 1, ..., LEN - 1]`.
pub fn array_range<const LEN: usize>() -> (r: [usize; LEN])
    ensures
        forall|i: int| 0 <= i < LEN ==> r@[i] == i,
{
    let mut arr: [usize; LEN] = [0usize; LEN];
    let mut i: usize = 0;
    while i < LEN
        invariant
            i <= LEN,
            arr@.len() == LEN,
            forall|j: int| 0 <= j < i ==> arr@[j] == j,
        decreases LEN - i,
    {
        arr[i] = i;
        i = i + 1;
    }
    arr
}

// ------------------------------------------------------------------------------------------
// Chunks
// ------------------------------------------------------------------------------------------

/// Length of a chunk's side, in blocks.
pub const CHUNK_SIDE_LENGTH: usize = 16;

/// Number of blocks in a chunk.
pub const CHUNK_VOLUME: usize = 4096;

/// The blocks of one chunk; the block at offset `(x, y, z)` within the chunk
/// is at index `x + z * 16 + y * 256`.
pub type Chunk = [BlockType; CHUNK_VOLUME];

/// A position in the world, or the coordinates of a chunk.
pub type BlockPos = (i32, i32, i32);

/// A chunk made of air only.
pub fn air_chunk() -> (r: Chunk)
    ensures
        r == [BlockType::Air; CHUNK_VOLUME],
        forall|i: int| 0 <= i < CHUNK_VOLUME ==> r@[i] == BlockType::Air,
{
    [BlockType::Air; CHUNK_VOLUME]
}

/// The chunk that holds world position `p`: each coordinate divided by 16,
/// rounding down.
pub open spec fn chunk_id(p: BlockPos) -> BlockPos {
    (((p.0 as int) / 16) as i32, ((p.1 as int) / 16) as i32, ((p.2 as int) / 16) as i32)
}

/// Where within its chunk world position `p` lies.
pub open spec fn index_within(p: BlockPos) -> int {
    (p.0 as int) % 16 + ((p.2 as int) % 16) * 16 + ((p.1 as int) % 16) * 256
}

/// The chunk and the index within it of world position `(x, y, z)`.
pub fn chunk_position(x: i32, y: i32, z: i32) -> (r: (BlockPos, usize))
    ensures
        r.0 == chunk_id((x, y, z)),
        r.1 == index_within((x, y, z)),
        r.1 < CHUNK_VOLUME,
{
    let cx = x.checked_div_euclid(16).unwrap();
    let cy = y.checked_div_euclid(16).unwrap();
    let cz = z.checked_div_euclid(16).unwrap();
    let wx = x.checked_rem_euclid(16).unwrap();
    let wy = y.checked_rem_euclid(16).unwrap();
    let wz = z.checked_rem_euclid(16).unwrap();
    let index = (wx as usize) + (wz as usize) * CHUNK_SIDE_LENGTH + (wy as usize) * 256;
    ((cx, cy, cz), index)
}

/// Every world position has its own place: two positions that fall into the
/// same chunk at the same index are the same position.
pub proof fn lemma_chunk_position_unique(p: BlockPos, q: BlockPos)
    requires
        chunk_id(p) == chunk_id(q),
        index_within(p) == index_within(q),
    ensures
        p == q,
{
    let (a1, b1, c1) = ((p.0 as int) % 16, (p.1 as int) % 16, (p.2 as int) % 16);
    let (a2, b2, c2) = ((q.0 as int) % 16, (q.1 as int) % 16, (q.2 as int) % 16);
    assert(a1 == a2 && b1 == b2 && c1 == c2) by (nonlinear_arith)
        requires
            0 <= a1 < 16,
            0 <= b1 < 16,
            0 <= c1 < 16,
            0 <= a2 < 16,
            0 <= b2 < 16,
            0 <= c2 < 16,
            a1 + c1 * 16 + b1 * 256 == a2 + c2 * 16 + b2 * 256,
    ;
    lemma_split_coordinate(p.0 as int, q.0 as int);
    lemma_split_coordinate(p.1 as int, q.1 as int);
    lemma_split_coordinate(p.2 as int, q.2 as int);
}

proof fn lemma_split_coordinate(u: int, v: int)
    requires
        i32::MIN <= u <= i32::MAX,
        i32::MIN <= v <= i32::MAX,
        (u / 16) as i32 == (v / 16) as i32,
        u % 16 == v % 16,
    ensures
        u == v,
{
    vstd::arithmetic::div_mod::lemma_fundamental_div_mod(u, 16);
    vstd::arithmetic::div_mod::lemma_fundamental_div_mod(v, 16);
    assert(i32::MIN <= u / 16 <= i32::MAX) by {
        vstd::arithmetic::div_mod::lemma_div_is_ordered(u, i32::MAX as int, 16);
        vstd::arithmetic::div_mod::lemma_div_is_ordered(i32::MIN as int, u, 16);
    }
    assert(i32::MIN <= v / 16 <= i32::MAX) by {
        vstd::arithmetic::div_mod::lemma_div_is_ordered(v, i32::MAX as int, 16);
        vstd::arithmetic::div_mod::lemma_div_is_ordered(i32::MIN as int, v, 16);
    }
}

/// The chunks of the world, keyed by chunk coordinates, held in the engine's
/// hash map.
#[verifier::external_body]
pub struct ChunkMap {
    map: bevy::utils::HashMap<BlockPos, Chunk>,
}

/// The chunks a `ChunkMap` holds.
pub uninterp spec fn chunk_map_contents(m: ChunkMap) -> Map<BlockPos, Chunk>;

impl ChunkMap {
    /// An empty map (`HashMap::default`).
    #[verifier::external_body]
    fn new() -> (r: ChunkMap)
        ensures
            chunk_map_contents(r) =~= Map::empty(),
    {
        ChunkMap { map: bevy::utils::HashMap::default() }
    }

    /// `HashMap::remove`: takes the chunk at `id` out of the map, if there is one.
    #[verifier::external_body]
    fn remove(&mut self, id: BlockPos) -> (r: Option<Chunk>)
        ensures
            chunk_map_contents(*final(self)) == chunk_map_contents(*old(self)).remove(id),
            r == if chunk_map_contents(*old(self)).dom().contains(id) {
                Some(chunk_map_contents(*old(self))[id])
            } else {
                None::<Chunk>
            },
    {
        self.map.remove(&id)
    }

    /// `HashMap::insert`: puts `chunk` at `id`, returning the chunk it replaces.
    #[verifier::external_body]
    fn insert(&mut self, id: BlockPos, chunk: Chunk) -> (r: Option<Chunk>)
        ensures
            chunk_map_contents(*final(self)) == chunk_map_contents(*old(self)).insert(id, chunk),
            r == if chunk_map_contents(*old(self)).dom().contains(id) {
                Some(chunk_map_contents(*old(self))[id])
            } else {
                None::<Chunk>
            },
    {
        self.map.insert(id, chunk)
    }

    /// `HashMap::into_iter`, collected: every chunk with its coordinates, each
    /// once, in the order the map is walked (which is left open).
    #[verifier::external_body]
    fn into_entries(self) -> (r: Vec<(BlockPos, Chunk)>)
        ensures
            forall|i: int|
                0 <= i < r.len() ==> chunk_map_contents(self).dom().contains(#[trigger] r@[i].0)
                    && chunk_map_contents(self)[r@[i].0] == r@[i].1,
            forall|id: BlockPos|
                chunk_map_contents(self).dom().contains(id) ==> exists|i: int|
                    0 <= i < r.len() && #[trigger] r@[i].0 == id,
            forall|i: int, j: int| 0 <= i < j < r.len() ==> r@[i].0 != r@[j].0,
    {
        self.map.into_iter().collect()
    }
}

impl Default for ChunkMap {
    /// No chunks.
    fn default() -> (r: Self)
        ensures
            chunk_map_contents(r) == Map::<BlockPos, Chunk>::empty(),
    {
        ChunkMap::new()
    }
}

/// The block at world position `p` in a collection of chunks; positions in
/// chunks that are not there hold air.
pub open spec fn block_at(m: Map<BlockPos, Chunk>, p: BlockPos) -> BlockType {
    if m.dom().contains(chunk_id(p)) {
        m[chunk_id(p)]@[index_within(p)]
    } else {
        BlockType::Air
    }
}

/// Placing block `b` at world position `p`: air is not placed; any other block
/// goes into the chunk of `p`, which starts out as all air when it is new.
pub open spec fn place_block(m: Map<BlockPos, Chunk>, p: BlockPos, b: BlockType) -> Map<
    BlockPos,
    Chunk,
> {
    if b == BlockType::Air {
        m
    } else {
        let id = chunk_id(p);
        let old_chunk = if m.dom().contains(id) {
            m[id]
        } else {
            [BlockType::Air; CHUNK_VOLUME]
        };
        m.insert(id, vstd::array::spec_array_update(old_chunk, index_within(p), b))
    }
}

/// Placing a whole list of blocks, first to last.
pub open spec fn place_blocks(m: Map<BlockPos, Chunk>, level: Seq<(BlockPos, BlockType)>) -> Map<
    BlockPos,
    Chunk,
>
    decreases level.len(),
{
    if level.len() == 0 {
        m
    } else {
        let (p, b) = level.last();
        place_block(place_blocks(m, level.drop_last()), p, b)
    }
}

/// Sort blocks into chunks: each block of `level` that is not air is written at
/// its place in its chunk, creating the chunk (all air) when it is missing.
/// Later blocks overwrite earlier ones at the same position.
pub fn spawn_blocks(chunks: &mut ChunkMap, level: Vec<(BlockPos, BlockType)>)
    ensures
        chunk_map_contents(*final(chunks)) == place_blocks(chunk_map_contents(*old(chunks)), level@),
{
    let mut i: usize = 0;
    while i < level.len()
        invariant
            i <= level.len(),
            chunk_map_contents(*chunks) == place_blocks(
                chunk_map_contents(*old(chunks)),
                level@.take(i as int),
            ),
        decreases level.len() - i,
    {
        let (pos, block_type) = level[i];
        proof {
            assert(level@.take(i as int + 1).drop_last() =~= level@.take(i as int));
        }
        if block_type != BlockType::Air {
            let (x, y, z) = pos;
            let (chunk_id, index) = chunk_position(x, y, z);
            let ghost before = chunk_map_contents(*chunks);
            let mut chunk = match chunks.remove(chunk_id) {
                Some(c) => c,
                None => air_chunk(),
            };
            let ghost old_chunk = chunk;
            chunk[index] = block_type;
            assert(chunk == vstd::array::spec_array_update(old_chunk, index as int, block_type));
            chunks.insert(chunk_id, chunk);
            assert(chunk_map_contents(*chunks) =~= place_block(before, pos, block_type));
        }
        i = i + 1;
    }
    proof {
        assert(level@.take(level.len() as int) =~= level@);
    }
}

/// The block that the last placement of a solid block at `q` in `level` put
/// there, or `otherwise` when `level` places no solid block at `q`.
pub open spec fn last_block_at(level: Seq<(BlockPos, BlockType)>, q: BlockPos, otherwise: BlockType) -> BlockType
    decreases level.len(),
{
    if level.len() == 0 {
        otherwise
    } else {
        let (p, b) = level.last();
        if p == q && b != BlockType::Air {
            b
        } else {
            last_block_at(level.drop_last(), q, otherwise)
        }
    }
}

proof fn lemma_index_within_bounds(p: BlockPos)
    ensures
        0 <= index_within(p) < CHUNK_VOLUME,
{
    let a = (p.0 as int) % 16;
    let b = (p.1 as int) % 16;
    let c = (p.2 as int) % 16;
    assert(0 <= a + c * 16 + b * 256 < 4096) by (nonlinear_arith)
        requires
            0 <= a < 16,
            0 <= b < 16,
            0 <= c < 16,
    ;
}

/// Reading a position after placing one block: the placed block where it was
/// placed (unless it is air), the previous block everywhere else.
pub proof fn lemma_read_after_place_block(m: Map<BlockPos, Chunk>, p: BlockPos, b: BlockType, q: BlockPos)
    ensures
        block_at(place_block(m, p, b), q) == if p == q && b != BlockType::Air {
            b
        } else {
            block_at(m, q)
        },
{
    if b != BlockType::Air {
        lemma_index_within_bounds(p);
        lemma_index_within_bounds(q);
        let id = chunk_id(p);
        let old_chunk = if m.dom().contains(id) {
            m[id]
        } else {
            [BlockType::Air; CHUNK_VOLUME]
        };
        let new_chunk = vstd::array::spec_array_update(old_chunk, index_within(p), b);
        assert(new_chunk@ == old_chunk@.update(index_within(p), b));
        if chunk_id(q) == id {
            if index_within(q) == index_within(p) {
                lemma_chunk_position_unique(p, q);
            } else if p != q {
                assert(new_chunk@[index_within(q)] == old_chunk@[index_within(q)]);
            }
        }
    }
}

/// Reading a position after placing a list of blocks gives the last solid block
/// placed there, and what was there before when none was: the chunks keep every
/// block written into them and nothing else changes.
pub proof fn lemma_read_after_place_blocks(
    m: Map<BlockPos, Chunk>,
    level: Seq<(BlockPos, BlockType)>,
    q: BlockPos,
)
    ensures
        block_at(place_blocks(m, level), q) == last_block_at(level, q, block_at(m, q)),
    decreases level.len(),
{
    if level.len() > 0 {
        let (p, b) = level.last();
        lemma_read_after_place_blocks(m, level.drop_last(), q);
        lemma_read_after_place_block(place_blocks(m, level.drop_last()), p, b, q);
    }
}

// ------------------------------------------------------------------------------------------
// Building the world's chunks
// ------------------------------------------------------------------------------------------

/// The block type of a level tile in the voxel world.
pub open spec fn spec_block_type_of_tile(tile: char) -> BlockType {
    if tile == 'g' {
        BlockType::Grass
    } else if tile == 's' {
        BlockType::Snow
    } else if tile == 'S' {
        BlockType::Bricks
    } else if tile == 'k' {
        BlockType::Rocks
    } else if tile == 'j' {
        BlockType::Stone
    } else {
        BlockType::Air
    }
}

/// The block type a level tile becomes in the voxel world; tiles without a
/// block become air.
pub fn block_type_of_tile(tile: char) -> (r: BlockType)
    ensures
        r == spec_block_type_of_tile(tile),
        tile == 'g' ==> r == BlockType::Grass,
        tile == 's' ==> r == BlockType::Snow,
        tile == 'S' ==> r == BlockType::Bricks,
        tile == 'k' ==> r == BlockType::Rocks,
        tile == 'j' ==> r == BlockType::Stone,
        (r != BlockType::Air) <==> (tile == 'g' || tile == 's' || tile == 'S' || tile == 'k'
            || tile == 'j'),
{
    match tile {
        'g' => BlockType::Grass,
        's' => BlockType::Snow,
        'S' => BlockType::Bricks,
        'k' => BlockType::Rocks,
        'j' => BlockType::Stone,
        _ => BlockType::Air,
    }
}

/// The block a level tile puts into the world: at the tile's position (each
/// coordinate converted with `as i32`), of the tile's block type.
pub open spec fn tile_block(t: crate::setup::LevelTile) -> (BlockPos, BlockType) {
    ((t.0[0] as i32, t.0[1] as i32, t.0[2] as i32), spec_block_type_of_tile(t.1))
}

/// Only five tile characters put a solid voxel into the world: `g` grass, `s`
/// snow, `S` bricks, `k` rocks and `j` stone; every other character is air, and
/// each solid block type comes from exactly one character.
pub proof fn lemma_tile_block_types(c: char, d: char)
    ensures
        (spec_block_type_of_tile(c) != BlockType::Air) <==> (c == 'g' || c == 's' || c == 'S' || c
            == 'k' || c == 'j'),
        c == 'g' ==> spec_block_type_of_tile(c) == BlockType::Grass,
        c == 's' ==> spec_block_type_of_tile(c) == BlockType::Snow,
        c == 'S' ==> spec_block_type_of_tile(c) == BlockType::Bricks,
        c == 'k' ==> spec_block_type_of_tile(c) == BlockType::Rocks,
        c == 'j' ==> spec_block_type_of_tile(c) == BlockType::Stone,
        spec_block_type_of_tile(c) != BlockType::Air && spec_block_type_of_tile(c)
            == spec_block_type_of_tile(d) ==> c == d,
{
}

/// The blocks of a level's tiles, in the tiles' order.
pub fn level_blocks(tiles: &Vec<crate::setup::LevelTile>) -> (r: Vec<(BlockPos, BlockType)>)
    ensures
        r@ == tiles@.map_values(|t: crate::setup::LevelTile| tile_block(t)),
{
    let mut out: Vec<(BlockPos, BlockType)> = Vec::new();
    let mut i: usize = 0;
    while i < tiles.len()
        invariant
            i <= tiles.len(),
            out@ == tiles@.take(i as int).map_values(|t: crate::setup::LevelTile| tile_block(t)),
        decreases tiles.len() - i,
    {
        let (pos, tile) = tiles[i];
        let block = (
            (pos[0] as i32, pos[1] as i32, pos[2] as i32),
            block_type_of_tile(tile),
        );
        out.push(block);
        proof {
            assert(tiles@.take(i as int + 1).map_values(|t: crate::setup::LevelTile| tile_block(t))
                =~= tiles@.take(i as int).map_values(|t: crate::setup::LevelTile| tile_block(t)).push(
                tile_block(tiles@[i as int]),
            ));
        }
        i = i + 1;
    }
    proof {
        assert(tiles@.take(tiles.len() as int) =~= tiles@);
    }
    out
}

/// Whether `p` lies in the solid ball of radius `radius` around `center`.
pub open spec fn in_ball(center: BlockPos, radius: int, p: BlockPos) -> bool {
    let dx = p.0 - center.0;
    let dy = p.1 - center.1;
    let dz = p.2 - center.2;
    dx * dx + dy * dy + dz * dz <= radius * radius
}

/// Whether the offset `(a0, a1, a2)` comes before `(b0, b1, b2)` in the order
/// the ball is walked.
pub open spec fn offset_before(a0: int, a1: int, a2: int, b0: int, b1: int, b2: int) -> bool {
    a0 < b0 || (a0 == b0 && (a1 < b1 || (a1 == b1 && a2 < b2)))
}

/// The offset of `p` from `center`, with the ball's walking order.
pub open spec fn offset_before_pos(center: BlockPos, p: BlockPos, b0: int, b1: int, b2: int) -> bool {
    offset_before(p.0 - center.0, p.1 - center.1, p.2 - center.2, b0, b1, b2)
}

/// Whether a ball around `center` stays within `i32` coordinates and its
/// squared distances within `i64`.
pub open spec fn ball_fits(center: BlockPos, radius: i32) -> bool {
    &&& 0 <= radius <= 1_000_000
    &&& i32::MIN <= center.0 - radius && center.0 + radius <= i32::MAX
    &&& i32::MIN <= center.1 - radius && center.1 + radius <= i32::MAX
    &&& i32::MIN <= center.2 - radius && center.2 + radius <= i32::MAX
}

proof fn lemma_square_bound(d: int, r: int)
    requires
        0 <= r <= 1_000_000,
        -r <= d <= r,
    ensures
        0 <= d * d <= r * r,
        r * r <= 1_000_000_000_000,
{
    assert(0 <= d * d <= r * r) by (nonlinear_arith)
        requires
            -r <= d <= r,
    ;
    assert(r * r <= 1_000_000_000_000) by (nonlinear_arith)
        requires
            0 <= r <= 1_000_000,
    ;
}

proof fn lemma_outside_range_outside_ball(d0: int, d1: int, d2: int, r: int)
    requires
        0 <= r,
        d0 * d0 + d1 * d1 + d2 * d2 <= r * r,
    ensures
        -r <= d0 <= r,
        -r <= d1 <= r,
        -r <= d2 <= r,
{
    assert(-r <= d0 <= r && -r <= d1 <= r && -r <= d2 <= r) by (nonlinear_arith)
        requires
            0 <= r,
            d0 * d0 + d1 * d1 + d2 * d2 <= r * r,
    ;
}

/// Every block position in the solid ball of radius `radius` around `center`,
/// each once, walked by x, then y, then z offset.
pub fn sphere_full_iter(center: BlockPos, radius: i32) -> (r: Vec<BlockPos>)
    requires
        ball_fits(center, radius),
    ensures
        forall|i: int| 0 <= i < r.len() ==> in_ball(center, radius as int, #[trigger] r@[i]),
        forall|p: BlockPos| in_ball(center, radius as int, p) ==> r@.contains(p),
        forall|i: int, j: int| 0 <= i < j < r.len() ==> r@[i] != r@[j],
{
    let (cx, cy, cz) = center;
    proof {
        lemma_square_bound(radius as int, radius as int);
    }
    let rr: i64 = (radius as i64) * (radius as i64);
    let mut out: Vec<BlockPos> = Vec::new();
    let mut a: i32 = -radius;
    proof {
        assert forall|q: BlockPos| in_ball(center, radius as int, q) && q.0 - center.0 < a implies out@.contains(q) by {
            lemma_outside_range_outside_ball(q.0 - center.0, q.1 - center.1, q.2 - center.2, radius as int);
        }
    }
    while a <= radius
        invariant
            ball_fits(center, radius),
            center == (cx, cy, cz),
            rr == radius * radius,
            -radius <= a <= radius + 1,
            forall|i: int| 0 <= i < out.len() ==> in_ball(center, radius as int, #[trigger] out@[i]),
            forall|i: int| 0 <= i < out.len() ==> offset_before_pos(center, #[trigger] out@[i], a as int, -radius - 1, 0),
            forall|i: int, j: int| 0 <= i < j < out.len() ==>
                offset_before_pos(center, out@[i], out@[j].0 - center.0, out@[j].1 - center.1, out@[j].2 - center.2),
            forall|p: BlockPos| in_ball(center, radius as int, p) && p.0 - center.0 < a ==> out@.contains(p),
        decreases radius + 1 - a,
    {
        let mut b: i32 = -radius;
        proof {
            assert forall|q: BlockPos| in_ball(center, radius as int, q) && offset_before_pos(center, q, a as int, b as int, -radius - 1) implies out@.contains(q) by {
                lemma_outside_range_outside_ball(q.0 - center.0, q.1 - center.1, q.2 - center.2, radius as int);
            }
        }
        while b <= radius
            invariant
                ball_fits(center, radius),
                center == (cx, cy, cz),
                rr == radius * radius,
                -radius <= a <= radius,
                -radius <= b <= radius + 1,
                forall|i: int| 0 <= i < out.len() ==> in_ball(center, radius as int, #[trigger] out@[i]),
                forall|i: int| 0 <= i < out.len() ==> offset_before_pos(center, #[trigger] out@[i], a as int, b as int, -radius - 1),
                forall|i: int, j: int| 0 <= i < j < out.len() ==>
                    offset_before_pos(center, out@[i], out@[j].0 - center.0, out@[j].1 - center.1, out@[j].2 - center.2),
                forall|p: BlockPos| in_ball(center, radius as int, p) && offset_before_pos(center, p, a as int, b as int, -radius - 1) ==> out@.contains(p),
            decreases radius + 1 - b,
        {
            let mut d: i32 = -radius;
            proof {
                assert forall|q: BlockPos| in_ball(center, radius as int, q) && offset_before_pos(center, q, a as int, b as int, d as int) implies out@.contains(q) by {
                    lemma_outside_range_outside_ball(q.0 - center.0, q.1 - center.1, q.2 - center.2, radius as int);
                }
            }
            while d <= radius
                invariant
                    ball_fits(center, radius),
                    center == (cx, cy, cz),
                    rr == radius * radius,
                    -radius <= a <= radius,
                    -radius <= b <= radius,
                    -radius <= d <= radius + 1,
                    forall|i: int| 0 <= i < out.len() ==> in_ball(center, radius as int, #[trigger] out@[i]),
                    forall|i: int| 0 <= i < out.len() ==> offset_before_pos(center, #[trigger] out@[i], a as int, b as int, d as int),
                    forall|i: int, j: int| 0 <= i < j < out.len() ==>
                        offset_before_pos(center, out@[i], out@[j].0 - center.0, out@[j].1 - center.1, out@[j].2 - center.2),
                    forall|p: BlockPos| in_ball(center, radius as int, p) && offset_before_pos(center, p, a as int, b as int, d as int) ==> out@.contains(p),
                decreases radius + 1 - d,
            {
                proof {
                    lemma_square_bound(a as int, radius as int);
                    lemma_square_bound(b as int, radius as int);
                    lemma_square_bound(d as int, radius as int);
                }
                let sq: i64 = (a as i64) * (a as i64) + (b as i64) * (b as i64) + (d as i64) * (d as i64);
                let ghost before = out@;
                if sq <= rr {
                    let p: BlockPos = (cx + a, cy + b, cz + d);
                    out.push(p);
                    proof {
                        assert(out@[out.len() - 1] == p);
                        assert forall|q: BlockPos| in_ball(center, radius as int, q) && offset_before_pos(center, q, a as int, b as int, d + 1) implies out@.contains(q) by {
                            if offset_before_pos(center, q, a as int, b as int, d as int) {
                                assert(before.contains(q));
                                let k = choose|k: int| 0 <= k < before.len() && before[k] == q;
                                assert(out@[k] == q);
                            } else {
                                assert(q == p);
                                assert(out@[out.len() - 1] == q);
                            }
                        }
                    }
                } else {
                    proof {
                        assert forall|q: BlockPos| in_ball(center, radius as int, q) && offset_before_pos(center, q, a as int, b as int, d + 1) implies out@.contains(q) by {
                            if !offset_before_pos(center, q, a as int, b as int, d as int) {
                                assert(q.0 - center.0 == a && q.1 - center.1 == b && q.2 - center.2 == d);
                                assert(false);
                            }
                        }
                    }
                }
                d = d + 1;
            }
            proof {
                assert forall|q: BlockPos| in_ball(center, radius as int, q) && offset_before_pos(center, q, a as int, b + 1, -radius - 1) implies out@.contains(q) by {
                    lemma_outside_range_outside_ball(q.0 - center.0, q.1 - center.1, q.2 - center.2, radius as int);
                }
            }
            b = b + 1;
        }
        proof {
            assert forall|q: BlockPos| in_ball(center, radius as int, q) && q.0 - center.0 < a + 1 implies out@.contains(q) by {
                lemma_outside_range_outside_ball(q.0 - center.0, q.1 - center.1, q.2 - center.2, radius as int);
                assert(offset_before_pos(center, q, a as int, radius + 1, -radius - 1) || q.0 - center.0 < a);
            }
        }
        a = a + 1;
    }
    proof {
        assert forall|q: BlockPos| in_ball(center, radius as int, q) implies out@.contains(q) by {
            lemma_outside_range_outside_ball(q.0 - center.0, q.1 - center.1, q.2 - center.2, radius as int);
        }
        assert forall|i: int, j: int| 0 <= i < j < out.len() implies out@[i] != out@[j] by {
            assert(offset_before_pos(center, out@[i], out@[j].0 - center.0, out@[j].1 - center.1, out@[j].2 - center.2));
        }
    }
    out
}

/// The block types a random sphere is built from.
pub open spec fn is_sphere_block(b: BlockType) -> bool {
    b == BlockType::Grass || b == BlockType::Snow || b == BlockType::Bricks || b
        == BlockType::Rocks || b == BlockType::Stone
}

/// A solid ball of blocks around `center`, each block of a type chosen at
/// random among grass, snow, bricks, rocks and stone.
pub fn random_block_sphere(center: BlockPos, radius: i32) -> (r: Vec<(BlockPos, BlockType)>)
    requires
        ball_fits(center, radius),
    ensures
        forall|i: int| 0 <= i < r.len() ==> in_ball(center, radius as int, (#[trigger] r@[i]).0),
        forall|p: BlockPos| in_ball(center, radius as int, p) ==> exists|i: int|
            0 <= i < r.len() && (#[trigger] r@[i]).0 == p,
        forall|i: int, j: int| 0 <= i < j < r.len() ==> r@[i].0 != r@[j].0,
        forall|i: int| 0 <= i < r.len() ==> is_sphere_block((#[trigger] r@[i]).1),
{
    let positions = sphere_full_iter(center, radius);
    let mut out: Vec<(BlockPos, BlockType)> = Vec::new();
    let mut i: usize = 0;
    while i < positions.len()
        invariant
            i <= positions.len(),
            out.len() == i,
            forall|k: int| 0 <= k < i ==> (#[trigger] out@[k]).0 == positions@[k],
            forall|k: int| 0 <= k < i ==> is_sphere_block((#[trigger] out@[k]).1),
        decreases positions.len() - i,
    {
        let block_type = crate::components::pick(
            vec![
                BlockType::Grass,
                BlockType::Snow,
                BlockType::Bricks,
                BlockType::Rocks,
                BlockType::Stone,
            ],
        );
        out.push((positions[i], block_type));
        i = i + 1;
    }
    proof {
        assert forall|p: BlockPos| in_ball(center, radius as int, p) implies exists|k: int|
            0 <= k < out.len() && (#[trigger] out@[k]).0 == p by {
            assert(positions@.contains(p));
            let k = choose|k: int| 0 <= k < positions.len() && positions@[k] == p;
            assert(out@[k].0 == p);
        }
        assert forall|a: int, b: int| 0 <= a < b < out.len() implies out@[a].0 != out@[b].0 by {
            assert(out@[a].0 == positions@[a]);
            assert(out@[b].0 == positions@[b]);
        }
    }
    out
}

/// The chunks of the world: the blocks of `level` are placed first, then those
/// of `extra`; every chunk comes back once, with its coordinates.
pub fn voxel_chunks(level: Vec<(BlockPos, BlockType)>, extra: Vec<(BlockPos, BlockType)>) -> (r: Vec<(BlockPos, Chunk)>)
    ensures
        forall|i: int|
            0 <= i < r.len() ==> place_blocks(place_blocks(Map::empty(), level@), extra@).dom().contains(#[trigger] r@[i].0)
                && place_blocks(place_blocks(Map::empty(), level@), extra@)[r@[i].0] == r@[i].1,
        forall|id: BlockPos|
            place_blocks(place_blocks(Map::empty(), level@), extra@).dom().contains(id) ==> exists|i: int|
                0 <= i < r.len() && #[trigger] r@[i].0 == id,
        forall|i: int, j: int| 0 <= i < j < r.len() ==> r@[i].0 != r@[j].0,
{
    let mut chunks = ChunkMap::new();
    spawn_blocks(&mut chunks, level);
    spawn_blocks(&mut chunks, extra);
    chunks.into_entries()
}

} // verus!
