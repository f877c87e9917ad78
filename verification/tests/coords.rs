use libgeotiles::coords::{flip_y, Geographic, Tile, WebMercator};

#[test]
fn flip_y_z0_is_identity() {
    assert_eq!(flip_y(0, 0), 0);
}

#[test]
fn flip_y_z1_swaps() {
    assert_eq!(flip_y(0, 1), 1);
    assert_eq!(flip_y(1, 1), 0);
}

#[test]
fn flip_y_inverts_at_z2() {
    for y in 0..4u32 {
        assert_eq!(flip_y(y, 2), 3 - y);
    }
}

#[test]
fn flip_y_twice_is_identity() {
    for z in 0u8..=5 {
        for y in 0..(1u32 << z) {
            assert_eq!(flip_y(flip_y(y, z), z), y, "z={z} y={y}");
        }
    }
}

#[test]
fn flip_y_saturates_outside_the_grid() {
    assert_eq!(flip_y(4, 2), 0);
    assert_eq!(flip_y(u32::MAX, 31), 0);
    assert_eq!(flip_y(0, 31), (1u32 << 31) - 1);
}

#[test]
fn grid_dimensions() {
    let g = Geographic::default();
    assert_eq!((g.x_count(0), g.y_count(0)), (2, 1));
    assert_eq!((g.x_count(1), g.y_count(1)), (4, 2));
    assert_eq!((g.x_count(2), g.y_count(2)), (8, 4));
}

#[test]
fn default_and_new_are_equivalent() {
    assert_eq!(Geographic::default(), Geographic::new(256));
    assert_eq!(Geographic::default().tile_size, 256);
}

#[test]
fn tests_default_and_new_are_equivalent() {
    assert_eq!(WebMercator::default(), WebMercator::new(256));
    assert_eq!(WebMercator::default().tile_size, 256);
}

#[test]
fn mercator_grid_is_square() {
    let m = WebMercator::new(512);
    assert_eq!(m.count(0), 1);
    assert_eq!(m.count(3), 8);
    assert_eq!(m.count(31), 1u32 << 31);
    let g = Geographic::new(512);
    for z in 0u8..31 {
        assert_eq!(g.x_count(z), 2 * g.y_count(z));
        assert_eq!(g.y_count(z), m.count(z));
    }
}

#[test]
fn tile_new_keeps_its_coordinates() {
    let t = Tile::new(3, 1, 1);
    assert_eq!((t.x, t.y, t.z), (3, 1, 1));
}

#[test]
fn clamped_tiles_land_on_the_grid() {
    let g = Geographic::default();
    assert_eq!(g.clamped(9, 9, 1), Tile::new(3, 1, 1));
    assert_eq!(g.clamped(2, 0, 1), Tile::new(2, 0, 1));
    let m = WebMercator::default();
    assert_eq!(m.clamped(9, 0, 1), Tile::new(1, 0, 1));
    assert_eq!(m.clamped(0, 0, 0), Tile::new(0, 0, 0));
}
