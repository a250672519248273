//! The level format: floors of text, one character per tile, and what each
//! tile character stands for.
use vstd::prelude::*;

verus! {

/// A tile of the level: its `[x, y, z]` position and its character. `y` is the
/// floor, `z` the line within the floor and `x` the byte offset within the line.
pub type LevelTile = ([usize; 3], char);

/// Number of bytes of a character in UTF-8.
pub open spec fn utf8_len(c: char) -> nat {
    if (c as u32) < 0x80 {
        1
    } else if (c as u32) < 0x800 {
        2
    } else if (c as u32) < 0x10000 {
        3
    } else {
        4
    }
}

/// Number of line feeds in `s`.
pub open spec fn newlines(s: Seq<char>) -> nat
    decreases s.len(),
{
    if s.len() == 0 {
        0
    } else {
        newlines(s.drop_last()) + if s.last() == '\n' {
            1nat
        } else {
            0nat
        }
    }
}

/// Number of bytes after the last line feed of `s`.
pub open spec fn line_bytes(s: Seq<char>) -> nat
    decreases s.len(),
{
    if s.len() == 0 {
        0
    } else if s.last() == '\n' {
        0
    } else {
        line_bytes(s.drop_last()) + utf8_len(s.last())
    }
}

/// Whether character `i` of floor `f` is a tile: line feeds end lines, and a
/// carriage return right before a line feed belongs to the line ending.
pub open spec fn is_tile(f: Seq<char>, i: int) -> bool {
    &&& f[i] != '\n'
    &&& !(f[i] == '\r' && i + 1 < f.len() && f[i + 1] == '\n')
}

/// The tiles among the first `n` characters of floor `f`, on floor `y`.
pub open spec fn floor_tiles_upto(f: Seq<char>, y: nat, n: nat) -> Seq<LevelTile>
    decreases n,
{
    if n == 0 {
        Seq::empty()
    } else {
        let i = (n - 1) as nat;
        let before = floor_tiles_upto(f, y, i);
        if is_tile(f, i as int) {
            before.push(
                (
                    [
                        line_bytes(f.take(i as int)) as usize,
                        y as usize,
                        newlines(f.take(i as int)) as usize,
                    ],
                    f[i as int],
                ),
            )
        } else {
            before
        }
    }
}

/// The tiles of floor `f`, on floor `y`, in reading order.
pub open spec fn floor_tiles(f: Seq<char>, y: nat) -> Seq<LevelTile> {
    floor_tiles_upto(f, y, f.len())
}

/// The tiles of all floors, floor by floor.
pub open spec fn level_tiles_of(floors: Seq<Seq<char>>) -> Seq<LevelTile>
    decreases floors.len(),
{
    if floors.len() == 0 {
        Seq::empty()
    } else {
        level_tiles_of(floors.drop_last()) + floor_tiles(
            floors.last(),
            (floors.len() - 1) as nat,
        )
    }
}

/// Lines are counted by line feeds: the line of a position is the number of
/// line feeds before it, each line feed starting a new line whether or not the
/// line it ends is empty.
pub proof fn lemma_newlines_count(s: Seq<char>)
    ensures
        newlines(s) == s.filter(|c: char| c == '\n').len(),
        newlines(s.push('\n')) == newlines(s) + 1,
    decreases s.len(),
{
    reveal(Seq::filter);
    if s.len() > 0 {
        lemma_newlines_count(s.drop_last());
    }
    assert(s.push('\n').drop_last() =~= s);
}

/// The column of a position is the number of UTF-8 bytes since the last line
/// feed: within a line it is the bytes of the characters before it, and a line
/// feed starts the count afresh.
pub proof fn lemma_line_bytes_count(a: Seq<char>, b: Seq<char>)
    ensures
        (forall|i: int| 0 <= i < b.len() ==> b[i] != '\n') ==> line_bytes(b) == b.fold_left(
            0nat,
            |acc: nat, c: char| acc + utf8_len(c),
        ),
        line_bytes(a.push('\n') + b) == line_bytes(b),
        newlines(a + b) == newlines(a) + newlines(b),
    decreases b.len(),
{
    if b.len() > 0 {
        lemma_line_bytes_count(a, b.drop_last());
        assert((a.push('\n') + b).drop_last() =~= a.push('\n') + b.drop_last());
        assert((a + b).drop_last() =~= a + b.drop_last());
    } else {
        assert(a.push('\n') + b =~= a.push('\n'));
        assert(a.push('\n').drop_last() =~= a);
        assert(a + b =~= a);
    }
}

proof fn lemma_line_bytes_bound(s: Seq<char>)
    ensures
        line_bytes(s) <= 4 * s.len(),
        newlines(s) <= s.len(),
    decreases s.len(),
{
    if s.len() > 0 {
        lemma_line_bytes_bound(s.drop_last());
    }
}

/// Number of UTF-8 bytes of `c`.
fn char_len_utf8(c: char) -> (r: usize)
    ensures
        r == utf8_len(c),
{
    let code = c as u32;
    if code < 0x80 {
        1
    } else if code < 0x800 {
        2
    } else if code < 0x10000 {
        3
    } else {
        4
    }
}

/// Append the tiles of floor `floor` (floor number `y`) to `out`.
fn push_floor_tiles(floor: &Vec<char>, y: usize, out: &mut Vec<LevelTile>)
    requires
        floor.len() <= usize::MAX / 4,
    ensures
        final(out)@ == old(out)@ + floor_tiles(floor@, y as nat),
{
    let n = floor.len();
    let mut x: usize = 0;
    let mut z: usize = 0;
    let mut i: usize = 0;
    while i < n
        invariant
            n == floor.len(),
            n <= usize::MAX / 4,
            i <= n,
            x == line_bytes(floor@.take(i as int)),
            z == newlines(floor@.take(i as int)),
            out@ == old(out)@ + floor_tiles_upto(floor@, y as nat, i as nat),
        decreases n - i,
    {
        let c = floor[i];
        proof {
            assert(floor@.take(i as int + 1).drop_last() =~= floor@.take(i as int));
            lemma_line_bytes_bound(floor@.take(i as int));
        }
        let dropped_return = c == '\r' && i + 1 < n && floor[i + 1] == '\n';
        if c != '\n' && !dropped_return {
            out.push(([x, y, z], c));
        }
        if c == '\n' {
            x = 0;
            z = z + 1;
        } else {
            x = x + char_len_utf8(c);
        }
        i = i + 1;
    }
    proof {
        assert(floor@.take(n as int) =~= floor@);
    }
}

/// The tiles of a level given as its floors' text, floor `y` being
/// `floors[y]`: for each floor its lines in order (lines end at a line feed, a
/// carriage return before the line feed is part of the line ending), and for
/// each line its characters with their byte offsets.
pub fn level_tiles(floors: &Vec<Vec<char>>) -> (r: Vec<LevelTile>)
    requires
        forall|y: int| 0 <= y < floors.len() ==> (#[trigger] floors@[y]).len() <= usize::MAX / 4,
    ensures
        r@ == level_tiles_of(floors.deep_view()),
{
    let mut out: Vec<LevelTile> = Vec::new();
    let mut y: usize = 0;
    while y < floors.len()
        invariant
            y <= floors.len(),
            forall|k: int| 0 <= k < floors.len() ==> (#[trigger] floors@[k]).len() <= usize::MAX / 4,
            out@ == level_tiles_of(floors.deep_view().take(y as int)),
        decreases floors.len() - y,
    {
        proof {
            assert(floors.deep_view().take(y as int + 1).drop_last() =~= floors.deep_view().take(
                y as int,
            ));
            assert(floors.deep_view()[y as int] == floors@[y as int]@);
        }
        push_floor_tiles(&floors[y], y, &mut out);
        y = y + 1;
    }
    proof {
        assert(floors.deep_view().take(floors.len() as int) =~= floors.deep_view());
    }
    out
}

/// The material of a plain block tile.
#[derive(Clone, Copy, PartialEq, Eq, Debug, Structural)]
pub enum BlockMaterial {
    Funky,
    Grass,
    Snow,
    Stone,
}

/// What the level set-up puts at a tile.
#[derive(Clone, Copy, PartialEq, Eq, Debug, Structural)]
pub enum TileSpawn {
    /// Nothing (open space).
    Nothing,
    /// A fixed cube of the given material.
    Block(BlockMaterial),
    /// A loose colourful cube.
    ColorfulCube,
    /// A bouncy glowing ball with a light.
    BouncyBall,
    /// The player, with its sprite and a stick figure beside it.
    Player,
    /// A tree billboard.
    Tree,
    /// An animated fire with a light.
    Fire,
    /// A spinning coffee cup to pick up.
    CoffeeCup,
    /// A spinning flashlight to pick up.
    FlashLight,
    /// A spinning glowing voxel model.
    GlowTest,
    /// A loose lunar lander model.
    LunarLander,
    /// A glowing sphere lamp.
    Lamp,
    /// A loose glowing cube with a light.
    UraniumCube,
    /// A loose snowball.
    Snowball,
}

/// The meaning of each tile character.
pub open spec fn spec_tile_spawn(tile: char) -> TileSpawn {
    if tile == 'w' {
        TileSpawn::Block(BlockMaterial::Funky)
    } else if tile == 'g' {
        TileSpawn::Block(BlockMaterial::Grass)
    } else if tile == 's' {
        TileSpawn::Block(BlockMaterial::Snow)
    } else if tile == 'S' {
        TileSpawn::Block(BlockMaterial::Stone)
    } else if tile == 'c' {
        TileSpawn::ColorfulCube
    } else if tile == 'b' {
        TileSpawn::BouncyBall
    } else if tile == 'p' {
        TileSpawn::Player
    } else if tile == 't' {
        TileSpawn::Tree
    } else if tile == 'f' {
        TileSpawn::Fire
    } else if tile == 'C' {
        TileSpawn::CoffeeCup
    } else if tile == 'F' {
        TileSpawn::FlashLight
    } else if tile == 'H' {
        TileSpawn::GlowTest
    } else if tile == 'L' {
        TileSpawn::LunarLander
    } else if tile == 'l' {
        TileSpawn::Lamp
    } else if tile == 'd' {
        TileSpawn::UraniumCube
    } else if tile == 'y' {
        TileSpawn::Snowball
    } else {
        TileSpawn::Nothing
    }
}

/// The tile characters that spawn something.
pub open spec fn is_spawning_tile(c: char) -> bool {
    c == 'w' || c == 'g' || c == 's' || c == 'S' || c == 'c' || c == 'b' || c == 'p' || c == 't'
        || c == 'f' || c == 'C' || c == 'F' || c == 'H' || c == 'L' || c == 'l' || c == 'd' || c
        == 'y'
}

/// Each tile character spawns its own kind of thing: `w`, `g`, `s`, `S` are
/// blocks of funky, grass, snow and stone material, the other spawning
/// characters each one kind of prop, and no two characters spawn the same;
/// every other character leaves the tile open.
pub proof fn lemma_tile_spawn_table(c: char, d: char)
    ensures
        spec_tile_spawn(c) == TileSpawn::Block(BlockMaterial::Funky) <==> c == 'w',
        spec_tile_spawn(c) == TileSpawn::Block(BlockMaterial::Grass) <==> c == 'g',
        spec_tile_spawn(c) == TileSpawn::Block(BlockMaterial::Snow) <==> c == 's',
        spec_tile_spawn(c) == TileSpawn::Block(BlockMaterial::Stone) <==> c == 'S',
        spec_tile_spawn(c) == TileSpawn::ColorfulCube <==> c == 'c',
        spec_tile_spawn(c) == TileSpawn::BouncyBall <==> c == 'b',
        spec_tile_spawn(c) == TileSpawn::Player <==> c == 'p',
        spec_tile_spawn(c) == TileSpawn::Tree <==> c == 't',
        spec_tile_spawn(c) == TileSpawn::Fire <==> c == 'f',
        spec_tile_spawn(c) == TileSpawn::CoffeeCup <==> c == 'C',
        spec_tile_spawn(c) == TileSpawn::FlashLight <==> c == 'F',
        spec_tile_spawn(c) == TileSpawn::GlowTest <==> c == 'H',
        spec_tile_spawn(c) == TileSpawn::LunarLander <==> c == 'L',
        spec_tile_spawn(c) == TileSpawn::Lamp <==> c == 'l',
        spec_tile_spawn(c) == TileSpawn::UraniumCube <==> c == 'd',
        spec_tile_spawn(c) == TileSpawn::Snowball <==> c == 'y',
        spec_tile_spawn(c) == TileSpawn::Nothing <==> !is_spawning_tile(c),
        spec_tile_spawn(c) != TileSpawn::Nothing && spec_tile_spawn(c) == spec_tile_spawn(d) ==> c == d,
{
}

/// What the level set-up spawns for a tile character; unknown characters, `o`
/// and spaces are open space.
pub fn tile_spawn(tile: char) -> (r: TileSpawn)
    ensures
        r == spec_tile_spawn(tile),
        tile == 'w' ==> r == TileSpawn::Block(BlockMaterial::Funky),
        tile == 'g' ==> r == TileSpawn::Block(BlockMaterial::Grass),
        tile == 's' ==> r == TileSpawn::Block(BlockMaterial::Snow),
        tile == 'S' ==> r == TileSpawn::Block(BlockMaterial::Stone),
        tile == 'c' ==> r == TileSpawn::ColorfulCube,
        tile == 'b' ==> r == TileSpawn::BouncyBall,
        tile == 'p' ==> r == TileSpawn::Player,
        tile == 't' ==> r == TileSpawn::Tree,
        tile == 'f' ==> r == TileSpawn::Fire,
        tile == 'C' ==> r == TileSpawn::CoffeeCup,
        tile == 'F' ==> r == TileSpawn::FlashLight,
        tile == 'H' ==> r == TileSpawn::GlowTest,
        tile == 'L' ==> r == TileSpawn::LunarLander,
        tile == 'l' ==> r == TileSpawn::Lamp,
        tile == 'd' ==> r == TileSpawn::UraniumCube,
        tile == 'y' ==> r == TileSpawn::Snowball,
        (r == TileSpawn::Nothing) <==> !is_spawning_tile(tile),
{
    match tile {
        'w' => TileSpawn::Block(BlockMaterial::Funky),
        'g' => TileSpawn::Block(BlockMaterial::Grass),
        's' => TileSpawn::Block(BlockMaterial::Snow),
        'S' => TileSpawn::Block(BlockMaterial::Stone),
        'o' | ' ' => TileSpawn::Nothing,
        'c' => TileSpawn::ColorfulCube,
        'b' => TileSpawn::BouncyBall,
        'p' => TileSpawn::Player,
        't' => TileSpawn::Tree,
        'f' => TileSpawn::Fire,
        'C' => TileSpawn::CoffeeCup,
        'F' => TileSpawn::FlashLight,
        'H' => TileSpawn::GlowTest,
        'L' => TileSpawn::LunarLander,
        'l' => TileSpawn::Lamp,
        'd' => TileSpawn::UraniumCube,
        'y' => TileSpawn::Snowball,
        _ => TileSpawn::Nothing,
    }
}

} // verus!
