use geometry_engine::block::BlockType;
use geometry_engine::column::{column_hash, Bracket, ColumnProfile, Placement};

fn bracket(value: f64) -> Bracket {
    Bracket { floor: value.floor() as i64, ceil: value.ceil() as i64 }
}

fn column(height: f64, sea: f64, arid: bool, tree_density: i32) -> ColumnProfile {
    ColumnProfile {
        height: bracket(height),
        relief: bracket(height - sea),
        sea_level: bracket(sea),
        arid,
        tree_density,
    }
}

fn block(profile: &ColumnProfile, y: i64, cavern: bool) -> Placement {
    profile.place(1, y, 1, cavern)
}

#[test]
fn cave_carves_only_more_than_five_below_the_surface() {
    let profile = column(30.5, 0.0, false, 0);
    assert_eq!(block(&profile, 10, true), Placement::Fill(BlockType::Air));
    assert_eq!(block(&profile, 25, true), Placement::Fill(BlockType::Air));
    // 26 is not below 30.5 - 5 = 25.5
    assert_eq!(block(&profile, 26, true), Placement::Fill(BlockType::Stone));
    assert_eq!(block(&profile, 10, false), Placement::Fill(BlockType::Stone));
}

#[test]
fn cave_never_carves_at_or_above_the_surface() {
    let profile = column(10.5, 0.0, false, 0);
    assert_eq!(block(&profile, 9, true), Placement::Fill(BlockType::Dirt));
    assert_eq!(block(&profile, 11, true), Placement::Fill(BlockType::Grass));
    assert_eq!(block(&profile, 12, true), Placement::Fill(BlockType::Air));
}

#[test]
fn deep_voxels_are_stone() {
    let profile = column(10.5, 0.0, false, 0);
    assert_eq!(block(&profile, -100, false), Placement::Fill(BlockType::Stone));
    assert_eq!(block(&profile, 8, false), Placement::Fill(BlockType::Stone));
    // 9 is not below 10.5 - 2 = 8.5
    assert_eq!(block(&profile, 9, false), Placement::Fill(BlockType::Dirt));
}

#[test]
fn soil_is_dirt_on_plain_ground() {
    let profile = column(10.5, 0.0, false, 0);
    assert_eq!(block(&profile, 9, false), Placement::Fill(BlockType::Dirt));
    assert_eq!(block(&profile, 10, false), Placement::Fill(BlockType::Dirt));
}

#[test]
fn soil_is_sand_on_a_beach() {
    let profile = column(1.5, 0.0, false, 0);
    assert_eq!(block(&profile, -1, false), Placement::Fill(BlockType::Stone));
    assert_eq!(block(&profile, 0, false), Placement::Fill(BlockType::Sand));
    assert_eq!(block(&profile, 1, false), Placement::Fill(BlockType::Sand));
}

#[test]
fn soil_is_sand_on_low_ground() {
    // below sea level by more than two: no beach, but lower than sea level + 1
    let profile = column(-5.5, 0.0, false, 0);
    assert_eq!(block(&profile, -6, false), Placement::Fill(BlockType::Sand));
    assert_eq!(block(&profile, -7, false), Placement::Fill(BlockType::Sand));
    assert_eq!(block(&profile, -8, false), Placement::Fill(BlockType::Stone));
}

#[test]
fn soil_is_sand_in_a_desert() {
    let profile = column(10.5, 0.0, true, 0);
    assert_eq!(block(&profile, 9, false), Placement::Fill(BlockType::Sand));
    assert_eq!(block(&profile, 10, false), Placement::Fill(BlockType::Sand));
}

#[test]
fn arid_ground_under_the_sea_is_no_desert() {
    // the surface is more than two below the sea: no beach, and no desert
    let profile = column(-5.5, 0.0, true, 0);
    assert_eq!(block(&profile, -5, false), Placement::Fill(BlockType::Water));
    // raised sea: the surface at 10.5 lies below sea level 20
    let drowned = column(10.5, 20.0, true, 0);
    assert_eq!(block(&drowned, 11, false), Placement::Fill(BlockType::Water));
}

#[test]
fn soil_is_stone_high_on_a_mountain() {
    let profile = column(30.5, 0.0, false, 0);
    assert_eq!(block(&profile, 29, false), Placement::Fill(BlockType::Stone));
    assert_eq!(block(&profile, 30, false), Placement::Fill(BlockType::Stone));
    // a mountain, but the voxel is not above level 20
    let lower = column(16.5, 0.0, false, 0);
    assert_eq!(block(&lower, 15, false), Placement::Fill(BlockType::Dirt));
    assert_eq!(block(&lower, 16, false), Placement::Fill(BlockType::Dirt));
    // level 20 itself is not above 20
    let edge = column(21.5, 0.0, false, 0);
    assert_eq!(block(&edge, 20, false), Placement::Fill(BlockType::Dirt));
    assert_eq!(block(&edge, 21, false), Placement::Fill(BlockType::Stone));
}

#[test]
fn mountain_starts_above_fifteen() {
    // height 15 exactly is no mountain
    let flat = column(15.0, -100.0, false, 0);
    assert_eq!(block(&flat, 15, false), Placement::Fill(BlockType::Grass));
    let peak = column(40.0, -100.0, false, 0);
    assert_eq!(block(&peak, 40, false), Placement::Fill(BlockType::Stone));
}

#[test]
fn cap_is_grass_on_plain_ground() {
    let profile = column(10.5, 0.0, false, 0);
    assert_eq!(block(&profile, 11, false), Placement::Fill(BlockType::Grass));
    assert_eq!(block(&profile, 12, false), Placement::Fill(BlockType::Air));
}

#[test]
fn cap_is_water_under_the_sea() {
    let profile = column(-5.5, 0.0, false, 0);
    assert_eq!(block(&profile, -5, false), Placement::Fill(BlockType::Water));
}

#[test]
fn cap_is_sand_on_a_beach_or_in_a_desert() {
    let beach = column(1.5, 0.0, false, 0);
    assert_eq!(block(&beach, 2, false), Placement::Fill(BlockType::Sand));
    let desert = column(10.5, 0.0, true, 0);
    assert_eq!(block(&desert, 11, false), Placement::Fill(BlockType::Sand));
}

#[test]
fn beach_lies_strictly_between_two_below_and_three_above_sea_level() {
    // exactly three above: no beach
    let three = column(3.0, 0.0, false, 0);
    assert_eq!(block(&three, 3, false), Placement::Fill(BlockType::Grass));
    let under_three = column(2.5, 0.0, false, 0);
    assert_eq!(block(&under_three, 3, false), Placement::Fill(BlockType::Sand));
    // exactly two below: no beach, and under the sea
    let two_below = column(-2.0, 0.0, false, 0);
    assert_eq!(block(&two_below, -2, false), Placement::Fill(BlockType::Water));
    let above_two_below = column(-1.5, 0.0, false, 0);
    assert_eq!(block(&above_two_below, -1, false), Placement::Fill(BlockType::Water));
    assert_eq!(block(&above_two_below, -2, false), Placement::Fill(BlockType::Sand));
}

#[test]
fn cap_is_stone_high_on_a_mountain() {
    let profile = column(30.5, 0.0, false, 0);
    assert_eq!(block(&profile, 31, false), Placement::Fill(BlockType::Stone));
    let lower = column(16.5, 0.0, false, 0);
    assert_eq!(block(&lower, 17, false), Placement::Fill(BlockType::Grass));
    let edge = column(24.5, 0.0, false, 0);
    assert_eq!(block(&edge, 25, false), Placement::Fill(BlockType::Grass));
    let over = column(25.5, 0.0, false, 0);
    assert_eq!(block(&over, 26, false), Placement::Fill(BlockType::Stone));
}

#[test]
fn basin_fills_with_water_up_to_sea_level() {
    let profile = column(-5.5, 0.0, false, 0);
    assert_eq!(block(&profile, -4, false), Placement::Fill(BlockType::Water));
    assert_eq!(block(&profile, -1, false), Placement::Fill(BlockType::Water));
    assert_eq!(block(&profile, 0, false), Placement::Fill(BlockType::Air));
    let raised = column(-5.5, 2.5, false, 0);
    assert_eq!(block(&raised, 2, false), Placement::Fill(BlockType::Water));
    assert_eq!(block(&raised, 3, false), Placement::Fill(BlockType::Air));
}

#[test]
fn tree_stands_on_the_first_level_above_a_whole_height() {
    let profile = column(10.0, 0.0, false, 3);
    assert_eq!(profile.place(0, 11, 0, false), Placement::Tree);
    assert_eq!(profile.place(0, 10, 0, false), Placement::Fill(BlockType::Grass));
    assert_eq!(profile.place(0, 12, 0, false), Placement::Fill(BlockType::Air));
    // hash 52 is not below 3
    assert_eq!(profile.place(1, 11, 1, false), Placement::Fill(BlockType::Air));
}

#[test]
fn tree_needs_the_hash_below_the_density() {
    let sparse = column(10.0, 0.0, false, 52);
    assert_eq!(sparse.place(1, 11, 1, false), Placement::Fill(BlockType::Air));
    let dense = column(10.0, 0.0, false, 53);
    assert_eq!(dense.place(1, 11, 1, false), Placement::Tree);
    let none = column(10.0, 0.0, false, 0);
    assert_eq!(none.place(0, 11, 0, false), Placement::Fill(BlockType::Air));
    let all = column(10.0, 0.0, false, 100);
    assert_eq!(all.place(7, 11, 9, false), Placement::Tree);
}

#[test]
fn tree_avoids_beach_desert_and_mountain() {
    let beach = column(2.0, 0.0, false, 100);
    assert_eq!(beach.place(0, 3, 0, false), Placement::Fill(BlockType::Air));
    let desert = column(10.0, 0.0, true, 100);
    assert_eq!(desert.place(0, 11, 0, false), Placement::Fill(BlockType::Air));
    let mountain = column(16.0, 0.0, false, 100);
    assert_eq!(mountain.place(0, 17, 0, false), Placement::Fill(BlockType::Air));
    let plain = column(15.0, 0.0, false, 100);
    assert_eq!(plain.place(0, 16, 0, false), Placement::Tree);
}

#[test]
fn tree_never_stands_over_a_height_between_levels() {
    let profile = column(10.5, 0.0, false, 100);
    for y in 0..30 {
        assert_ne!(profile.place(0, y, 0, false), Placement::Tree);
    }
}

#[test]
fn column_hash_is_the_remainder_of_the_magnitude() {
    assert_eq!(column_hash(0, 0), 0);
    assert_eq!(column_hash(1, 1), 52);
    assert_eq!(column_hash(-1, -1), 52);
    assert_eq!(column_hash(3, 0), 19);
    assert_eq!(column_hash(0, 3), 37);
    assert_eq!(column_hash(8, 4), 0);
    assert_eq!(column_hash(-7, 2), 53);
    assert_eq!(column_hash(1, -1), 6);
    for x in -40i64..40 {
        for z in -40i64..40 {
            let hash = column_hash(x, z);
            assert!((0..100).contains(&hash));
            assert_eq!(hash as i64, (x * 73 + z * 179).abs() % 100);
        }
    }
}

#[test]
fn column_hash_takes_the_whole_range_of_coordinates() {
    let hash = column_hash(i64::MAX, i64::MAX);
    assert_eq!(hash as i128, ((i64::MAX as i128) * 252) % 100);
    let hash = column_hash(i64::MIN, i64::MIN);
    assert_eq!(hash as i128, ((i64::MIN as i128) * 252).abs() % 100);
}

#[test]
fn a_value_that_is_no_number_compares_with_nothing() {
    let nothing = Bracket { floor: i64::MAX, ceil: i64::MIN };
    let profile = ColumnProfile {
        height: nothing,
        relief: nothing,
        sea_level: bracket(0.0),
        arid: false,
        tree_density: 100,
    };
    assert_eq!(profile.place(0, -5, 0, true), Placement::Fill(BlockType::Water));
    assert_eq!(profile.place(0, 5, 0, true), Placement::Fill(BlockType::Air));
}
