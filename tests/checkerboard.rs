use raytracer::checker::{checker_tile, Tile};

fn cell(x: f32, z: f32) -> (i64, i64) {
    ((0.5 * x + 1000.0).floor() as i64, (0.5 * z).floor() as i64)
}

#[test]
fn parity_picks_the_tile() {
    assert_eq!(checker_tile(1000, -7), Tile::Light);
    assert_eq!(checker_tile(1000, -6), Tile::Dark);
    assert_eq!(checker_tile(1001, -7), Tile::Dark);
    assert_eq!(checker_tile(1001, -6), Tile::Light);
    assert_eq!(checker_tile(0, 0), Tile::Dark);
    assert_eq!(checker_tile(-1, 0), Tile::Light);
    assert_eq!(checker_tile(-3, -4), Tile::Light);
}

#[test]
fn extreme_cells_do_not_overflow() {
    assert_eq!(checker_tile(i64::MAX, i64::MAX), Tile::Dark);
    assert_eq!(checker_tile(i64::MIN, i64::MAX), Tile::Light);
    assert_eq!(checker_tile(i64::MIN, i64::MIN), Tile::Dark);
}

#[test]
fn lattice_patch_on_the_plane() {
    // x = 0..3 across, z = -14..-11 down, on the plane y = -4.
    let expected = [
        [Tile::Light, Tile::Light, Tile::Dark, Tile::Dark],
        [Tile::Light, Tile::Light, Tile::Dark, Tile::Dark],
        [Tile::Dark, Tile::Dark, Tile::Light, Tile::Light],
        [Tile::Dark, Tile::Dark, Tile::Light, Tile::Light],
    ];
    for (row, z) in (-14..=-11).enumerate() {
        for (col, x) in (0..=3).enumerate() {
            let (cx, cz) = cell(x as f32, z as f32);
            assert_eq!(checker_tile(cx, cz), expected[row][col], "x = {}, z = {}", x, z);
        }
    }
}

#[test]
fn neighbouring_cells_alternate() {
    for cx in -3i64..3 {
        for cz in -3i64..3 {
            assert_ne!(checker_tile(cx, cz), checker_tile(cx + 1, cz));
            assert_ne!(checker_tile(cx, cz), checker_tile(cx, cz + 1));
            assert_eq!(checker_tile(cx, cz), checker_tile(cx + 1, cz + 1));
        }
    }
}
