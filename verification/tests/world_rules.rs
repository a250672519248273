use bevy::ecs::entity::Entity;
use bevy_game::assetstuff::{colorful_texture_data, uv_debug_texture_data, TEXTURE_BYTES};
use bevy_game::components::{
    coord, pick, pick_multiple, u32_bounded, u32_cycle, Coord, Dir, ItemPickUp, PickUpReward,
    Player, TimedAnimation, PLAYER_JUMP_CHARGE_LEVEL_MAX,
};
use bevy_game::jumpy_penguin::SegmentPath;
use bevy_game::setup::{level_tiles, tile_spawn, BlockMaterial, TileSpawn};
use bevy_game::ui::UiPopup;
use bevy_game::update::{
    crazy_cubes, cube_disc, increment_time, number_thing, show_message,
    timed_animation_system, CrazyCubes, NumberThing, TimeTicks, MESSAGE_SHOW_TIME_TICKS,
};
use bevy_game::voxels::{
    array_range, block_type_of_index, block_type_of_tile, chunk_position, index_of_block_type,
    index_of_texture, is_covering, level_blocks, random_block_sphere, spawn_blocks,
    sphere_full_iter, texture_of_block_type, texture_of_index, voxel_chunks, BlockTexture,
    BlockType, ChunkMap, NUM_BLOCK_TEXTURES, NUM_BLOCK_TYPES,
};
use std::collections::HashSet;

// ---------------------------------------------------------------- counters

#[test]
fn cycle_counter_wraps_after_steps() {
    let mut c: u32_cycle<3> = Default::default();
    let mut seen = Vec::new();
    for _ in 0..7 {
        seen.push(c.value());
        c.next();
    }
    assert_eq!(seen, vec![0, 1, 2, 0, 1, 2, 0]);
    assert_eq!(c.value(), 1);
}

#[test]
fn cycle_counter_returns_after_full_period() {
    let mut c: u32_cycle<430> = Default::default();
    c.next();
    c.next();
    let start = c.value();
    for _ in 0..430 {
        c.next();
    }
    assert_eq!(c.value(), start);
    let copy = c.clone();
    assert_eq!(copy.value(), 2);
}

#[test]
fn bounded_counter_saturates_at_max() {
    let mut b: u32_bounded<3> = Default::default();
    let mut seen = Vec::new();
    for _ in 0..6 {
        b.next();
        seen.push(b.value());
    }
    assert_eq!(seen, vec![1, 2, 3, 3, 3, 3]);
    assert_eq!(b.clone().value(), 3);
}

#[test]
fn bounded_counter_at_u32_max_bound() {
    let mut b: u32_bounded<{ u32::MAX }> = Default::default();
    b.next();
    assert_eq!(b.value(), 1);
}

// ---------------------------------------------------------------- directions

#[test]
fn diagonal_directions() {
    let diagonal: Vec<Dir> = [
        Dir::NORTH,
        Dir::NORTHEAST,
        Dir::EAST,
        Dir::SOUTHEAST,
        Dir::SOUTH,
        Dir::SOUTHWEST,
        Dir::WEST,
        Dir::NORTHWEST,
        Dir::HERE,
    ]
    .into_iter()
    .filter(|d| d.is_diagonal())
    .collect();
    assert_eq!(diagonal, vec![Dir::NORTHEAST, Dir::SOUTHEAST, Dir::SOUTHWEST, Dir::NORTHWEST]);
}

#[test]
fn direction_offsets() {
    let offsets: Vec<[i32; 2]> = [
        Dir::NORTH,
        Dir::NORTHEAST,
        Dir::EAST,
        Dir::SOUTHEAST,
        Dir::SOUTH,
        Dir::SOUTHWEST,
        Dir::WEST,
        Dir::NORTHWEST,
        Dir::HERE,
    ]
    .into_iter()
    .map(<[i32; 2]>::from)
    .collect();
    assert_eq!(
        offsets,
        vec![[0, 1], [1, 1], [1, 0], [1, -1], [0, -1], [-1, -1], [-1, 0], [-1, 1], [0, 0]]
    );
}

#[test]
fn coordinates_step_and_step_back() {
    assert_eq!(Coord::default(), Coord([0, 0]));
    let c = coord(3, -4);
    assert_eq!(c, Coord([3, -4]));
    assert_eq!(Coord::from((3, -4)), c);
    assert_eq!(c + Dir::NORTHEAST, Coord([4, -3]));
    assert_eq!(c - Dir::NORTHEAST, Coord([2, -5]));
    assert_eq!((c + Dir::SOUTHWEST) - Dir::SOUTHWEST, c);
    assert_eq!(c + Dir::HERE, c);
}

#[test]
fn direction_from_to_compares_with_origin_x() {
    // Horizontal sign from dest.x vs orig.x, vertical sign from dest.y vs orig.x.
    let o = coord(0, 0);
    assert_eq!(Dir::from_to(&o, &coord(0, 0)), Dir::HERE);
    assert_eq!(Dir::from_to(&o, &coord(0, 3)), Dir::NORTH);
    assert_eq!(Dir::from_to(&o, &coord(0, -3)), Dir::SOUTH);
    assert_eq!(Dir::from_to(&o, &coord(2, 0)), Dir::EAST);
    assert_eq!(Dir::from_to(&o, &coord(2, 2)), Dir::NORTHEAST);
    assert_eq!(Dir::from_to(&o, &coord(2, -2)), Dir::SOUTHEAST);
    assert_eq!(Dir::from_to(&o, &coord(-2, -2)), Dir::SOUTHWEST);
    assert_eq!(Dir::from_to(&o, &coord(-2, 0)), Dir::SOUTH);
    assert_eq!(Dir::from_to(&o, &coord(-2, 2)), Dir::NORTHEAST);
    // The origin's y plays no part: the same cell is not HERE when x != y.
    assert_eq!(Dir::from_to(&coord(0, 5), &coord(0, 5)), Dir::NORTH);
}

#[test]
fn random_lateral_is_an_axis_direction() {
    for _ in 0..50 {
        let d = Dir::random_lateral();
        assert!(!d.is_diagonal());
        assert_ne!(d, Dir::HERE);
        let _any = Dir::random();
    }
}

#[test]
fn picks_come_from_the_collection() {
    for _ in 0..50 {
        let p = pick(vec![4, 8, 15]);
        assert!([4, 8, 15].contains(&p));
    }
    let mut chosen = pick_multiple(vec![1, 2, 3, 4, 5], 3);
    assert_eq!(chosen.len(), 3);
    chosen.sort();
    chosen.dedup();
    assert_eq!(chosen.len(), 3);
    assert!(chosen.iter().all(|x| (1..=5).contains(x)));
    let mut all = pick_multiple(vec![7, 7, 9], 10);
    all.sort();
    assert_eq!(all, vec![7, 7, 9]);
    assert!(pick_multiple(vec![1, 2], 0).is_empty());
    let mut huge = pick_multiple(vec![1u8, 2, 3], usize::MAX);
    huge.sort();
    assert_eq!(huge, vec![1, 2, 3]);
}

// ---------------------------------------------------------------- the player

#[test]
fn jump_charge_rises_saturates_and_resets() {
    let mut player = Player::default();
    assert_eq!(player.num_coffee_cups, 0);
    for _ in 0..200 {
        player.charge_jump(true);
    }
    assert_eq!(player.jump_charge_level.value(), PLAYER_JUMP_CHARGE_LEVEL_MAX);
    player.charge_jump(false);
    assert_eq!(player.jump_charge_level.value(), 0);
    player.charge_jump(true);
    assert_eq!(player.jump_charge_level.value(), 1);
}

#[test]
fn picking_up_items() {
    let mut player = Player::default();
    assert_eq!(player.pick_up(ItemPickUp::CoffeeCup), PickUpReward::CoffeeCups(1));
    assert_eq!(player.pick_up(ItemPickUp::CoffeeCup), PickUpReward::CoffeeCups(2));
    assert_eq!(player.pick_up(ItemPickUp::GetFlashLight), PickUpReward::FlashLight);
    assert_eq!(player.num_coffee_cups, 2);
    let copy = player.clone();
    assert_eq!(copy.num_coffee_cups, 2);
}

// ---------------------------------------------------------------- blocks and chunks

#[test]
fn block_type_indices_round_trip() {
    for i in 0..NUM_BLOCK_TYPES as u8 {
        assert_eq!(index_of_block_type(block_type_of_index(i)), i);
    }
    for i in 0..NUM_BLOCK_TEXTURES as u8 {
        assert_eq!(index_of_texture(texture_of_index(i)), i);
    }
    assert_eq!(block_type_of_index(0), BlockType::Air);
    assert_eq!(block_type_of_index(7), BlockType::Dirt);
    assert_eq!(texture_of_index(6), BlockTexture::Dirt);
    assert_eq!(index_of_texture(BlockTexture::Snow), 3);
}

#[test]
fn block_textures_and_covering() {
    assert_eq!(texture_of_block_type(BlockType::Air), None);
    assert_eq!(texture_of_block_type(BlockType::Bricks), Some(BlockTexture::Bricks));
    assert_eq!(texture_of_block_type(BlockType::Sand), Some(BlockTexture::Sand));
    assert!(!is_covering(BlockType::Air));
    assert!(is_covering(BlockType::Stone));
}

#[test]
fn array_range_counts_up() {
    let r: [usize; 8] = array_range();
    assert_eq!(r, [0, 1, 2, 3, 4, 5, 6, 7]);
    let empty: [usize; 0] = array_range();
    assert_eq!(empty.len(), 0);
}

#[test]
fn chunk_positions_round_down() {
    assert_eq!(chunk_position(0, 0, 0), ((0, 0, 0), 0));
    assert_eq!(chunk_position(15, 15, 15), ((0, 0, 0), 15 + 15 * 16 + 15 * 256));
    assert_eq!(chunk_position(16, 0, 0), ((1, 0, 0), 0));
    assert_eq!(chunk_position(-1, 0, 0), ((-1, 0, 0), 15));
    assert_eq!(chunk_position(-16, -17, 33), ((-1, -2, 2), 0 + 1 * 16 + 15 * 256));
    assert_eq!(chunk_position(i32::MIN, 0, 0), ((i32::MIN / 16, 0, 0), 0));
}

#[test]
fn blocks_land_in_their_chunks() {
    let level = vec![
        ((1, 2, 3), BlockType::Grass),
        ((17, 0, 0), BlockType::Snow),
        ((-1, 0, 0), BlockType::Air),
        ((1, 2, 3), BlockType::Stone),
    ];
    let extra = vec![((18, 0, 0), BlockType::Rocks)];
    let mut chunks = voxel_chunks(level, extra);
    chunks.sort_by_key(|(id, _)| *id);
    assert_eq!(chunks.len(), 2);
    let (id0, c0) = &chunks[0];
    assert_eq!(*id0, (0, 0, 0));
    assert_eq!(c0[1 + 3 * 16 + 2 * 256], BlockType::Stone);
    assert_eq!(c0.iter().filter(|b| **b != BlockType::Air).count(), 1);
    let (id1, c1) = &chunks[1];
    assert_eq!(*id1, (1, 0, 0));
    assert_eq!(c1[1], BlockType::Snow);
    assert_eq!(c1[2], BlockType::Rocks);
    assert_eq!(c1.iter().filter(|b| **b != BlockType::Air).count(), 2);
}

#[test]
fn air_alone_makes_no_chunk() {
    let chunks = voxel_chunks(vec![((5, 5, 5), BlockType::Air)], vec![]);
    assert!(chunks.is_empty());
    let mut map = ChunkMap::default();
    spawn_blocks(&mut map, vec![((0, 0, 0), BlockType::Air)]);
}

#[test]
fn ball_of_positions() {
    assert_eq!(sphere_full_iter((0, 0, 0), 0), vec![(0, 0, 0)]);
    let one = sphere_full_iter((10, -3, 7), 1);
    assert_eq!(one.len(), 7);
    assert!(one.contains(&(10, -2, 7)));
    assert!(!one.contains(&(11, -2, 7)));
    let two = sphere_full_iter((0, 0, 0), 2);
    assert_eq!(two.len(), 33);
    let distinct: HashSet<_> = two.iter().collect();
    assert_eq!(distinct.len(), 33);
}

#[test]
fn random_sphere_uses_building_blocks() {
    let blocks = random_block_sphere((-50, 4, 50), 3);
    assert_eq!(blocks.len(), sphere_full_iter((-50, 4, 50), 3).len());
    assert!(blocks.iter().all(|(_, b)| [
        BlockType::Grass,
        BlockType::Snow,
        BlockType::Bricks,
        BlockType::Rocks,
        BlockType::Stone
    ]
    .contains(b)));
}

#[test]
fn level_tiles_of_floors() {
    let floors: Vec<Vec<char>> = vec!["gs\r\n p\n".chars().collect(), "é\rx".chars().collect()];
    let tiles = level_tiles(&floors);
    assert_eq!(
        tiles,
        vec![
            ([0, 0, 0], 'g'),
            ([1, 0, 0], 's'),
            ([0, 0, 1], ' '),
            ([1, 0, 1], 'p'),
            ([0, 1, 0], 'é'),
            ([2, 1, 0], '\r'),
            ([3, 1, 0], 'x'),
        ]
    );
    assert!(level_tiles(&vec![]).is_empty());
}

#[test]
fn level_tiles_become_blocks() {
    let tiles = vec![([0, 0, 0], 'g'), ([1, 0, 0], 'S'), ([2, 3, 4], 'k'), ([0, 0, 1], 'p')];
    assert_eq!(
        level_blocks(&tiles),
        vec![
            ((0, 0, 0), BlockType::Grass),
            ((1, 0, 0), BlockType::Bricks),
            ((2, 3, 4), BlockType::Rocks),
            ((0, 0, 1), BlockType::Air),
        ]
    );
    assert_eq!(block_type_of_tile('s'), BlockType::Snow);
    assert_eq!(block_type_of_tile('j'), BlockType::Stone);
    assert_eq!(block_type_of_tile('?'), BlockType::Air);
}

#[test]
fn tile_characters() {
    assert_eq!(tile_spawn('w'), TileSpawn::Block(BlockMaterial::Funky));
    assert_eq!(tile_spawn('S'), TileSpawn::Block(BlockMaterial::Stone));
    assert_eq!(tile_spawn('p'), TileSpawn::Player);
    assert_eq!(tile_spawn('C'), TileSpawn::CoffeeCup);
    assert_eq!(tile_spawn('F'), TileSpawn::FlashLight);
    assert_eq!(tile_spawn('o'), TileSpawn::Nothing);
    assert_eq!(tile_spawn(' '), TileSpawn::Nothing);
    assert_eq!(tile_spawn('Q'), TileSpawn::Nothing);
}

// ---------------------------------------------------------------- per-tick rules

#[test]
fn clock_ticks() {
    let mut t = TimeTicks::default();
    increment_time(&mut t);
    increment_time(&mut t);
    assert_eq!(t, TimeTicks(2));
}

#[test]
fn messages_live_for_their_show_time() {
    let mut age = 0u32;
    let mut shown = 0;
    while !show_message(&mut age) {
        shown += 1;
    }
    assert_eq!(shown, MESSAGE_SHOW_TIME_TICKS + 1);
    assert_eq!(age, MESSAGE_SHOW_TIME_TICKS + 1);
    assert!(show_message(&mut age));
    assert_eq!(age, MESSAGE_SHOW_TIME_TICKS + 1);
}

#[test]
fn animation_changes_frame_on_frame_boundaries() {
    let anim = TimedAnimation { num_frames: 4, time_per_frame_in_ticks: 20 };
    let mut index = 99usize;
    timed_animation_system(&TimeTicks(0), &anim, &mut index);
    assert_eq!(index, 99);
    timed_animation_system(&TimeTicks(19), &anim, &mut index);
    assert_eq!(index, 99);
    timed_animation_system(&TimeTicks(20), &anim, &mut index);
    assert_eq!(index, 1);
    timed_animation_system(&TimeTicks(80), &anim, &mut index);
    assert_eq!(index, 0);
    let still = TimedAnimation { num_frames: 1, time_per_frame_in_ticks: 5 };
    let mut idx = 7usize;
    timed_animation_system(&TimeTicks(10), &still, &mut idx);
    assert_eq!(idx, 7);
}

#[test]
fn number_dial_turns_when_near() {
    let mut n = NumberThing(255);
    number_thing(&mut n, true, true, false);
    assert_eq!(n, NumberThing(0));
    number_thing(&mut n, true, false, true);
    assert_eq!(n, NumberThing(255));
    number_thing(&mut n, false, true, false);
    assert_eq!(n, NumberThing(255));
    number_thing(&mut n, true, true, true);
    assert_eq!(n, NumberThing(255));
}

#[test]
fn cube_floor_shape() {
    let disc = cube_disc(0, 0);
    assert_eq!(disc.len(), 197);
    assert!(disc.contains(&(8, -70, 0)));
    assert!(!disc.contains(&(6, -70, 6)));
    let far = cube_disc(100, 100);
    assert!(far.contains(&(100, -70, 92)));
    assert!(!far.contains(&(100, -69, 100)));
}

#[test]
fn cube_floor_follows_the_player() {
    let mut cubes = CrazyCubes::default();
    let first = crazy_cubes(&mut cubes, 0, 0);
    assert!(first.removed.is_empty());
    assert_eq!(first.to_add.len(), 197);
    let spawned: Vec<_> = first
        .to_add
        .iter()
        .enumerate()
        .map(|(i, p)| (*p, Entity::from_raw(i as u32)))
        .collect();
    cubes.add_spawned(spawned.clone());
    let again = crazy_cubes(&mut cubes, 0, 0);
    assert!(again.removed.is_empty());
    assert!(again.to_add.is_empty());
    let moved = crazy_cubes(&mut cubes, 1, 0);
    // Moving one cell east: the column x = 9 appears partly, cells on the west rim go.
    assert!(moved.to_add.contains(&(9, -70, 0)));
    assert!(moved.removed.iter().any(|(p, _)| *p == (-8, -70, 0)));
    for (p, e) in &moved.removed {
        let original = spawned.iter().find(|(q, _)| q == p).unwrap();
        assert_eq!(original.1, *e);
    }
    let added = moved.to_add.len();
    let removed = moved.removed.len();
    assert_eq!(added, removed);
}

// ---------------------------------------------------------------- paths, pop-ups, textures

#[test]
fn segment_path_cycles() {
    let mut path = SegmentPath::new(vec![10, 20, 30]);
    let mut seen = Vec::new();
    for _ in 0..5 {
        seen.push(path.dest());
        path.advance();
    }
    assert_eq!(seen, vec![10, 20, 30, 10, 20]);
    let mut empty: SegmentPath<i32> = SegmentPath::new(vec![]);
    empty.advance();
}

#[test]
fn popup_layout() {
    let popup = UiPopup::new(vec![" ArrowUp / ArrowDown ".to_string(), "7".to_string()]);
    assert_eq!(popup.background_size(), (21, 2));
    assert_eq!(
        popup.text_sections(),
        vec![" ArrowUp / ArrowDown ".to_string(), "\n".to_string(), "7".to_string()]
    );
    assert_eq!(popup.drawn_children(), None);
    let unicode = UiPopup::new(vec!["héllo".to_string()]);
    assert_eq!(unicode.background_size(), (5, 1));
    assert_eq!(unicode.text_sections(), vec!["héllo".to_string()]);
    let empty = UiPopup::new(vec![]);
    assert_eq!(empty.background_size(), (0, 0));
    assert!(empty.text_sections().is_empty());
    let mut drawn = UiPopup::new(vec!["x".to_string()]);
    drawn.foreground_child = Some(Entity::from_raw(1));
    assert_eq!(drawn.drawn_children(), None);
    drawn.background_child = Some(Entity::from_raw(2));
    assert_eq!(drawn.drawn_children(), Some((Entity::from_raw(1), Entity::from_raw(2))));
}

#[test]
fn debug_texture_rows_shift_right() {
    let data = uv_debug_texture_data();
    let palette: [u8; 32] = [
        255, 102, 159, 255, 255, 159, 102, 255, 236, 255, 102, 255, 121, 255, 102, 255, 102, 255,
        198, 255, 102, 198, 255, 255, 121, 102, 255, 255, 236, 102, 255, 255,
    ];
    assert_eq!(&data[0..32], &palette[..]);
    let mut row = palette;
    for y in 0..8 {
        assert_eq!(&data[32 * y..32 * y + 32], &row[..]);
        row.rotate_right(4);
    }
    assert_eq!(data[32], 236);
}

#[test]
fn colorful_texture_has_every_pixel() {
    assert_eq!(colorful_texture_data().len(), TEXTURE_BYTES);
}

#[test]
fn every_position_has_its_own_place_in_the_chunks() {
    let mut places = HashSet::new();
    for x in -20..20 {
        for y in -3..3 {
            for z in -20..20 {
                assert!(places.insert(chunk_position(x, y, z)));
            }
        }
    }
    assert_eq!(places.len(), 40 * 6 * 40);
}

#[test]
fn covering_blocks_are_exactly_the_textured_ones() {
    for i in 0..NUM_BLOCK_TYPES as u8 {
        let b = block_type_of_index(i);
        assert_eq!(is_covering(b), texture_of_block_type(b).is_some());
    }
}
