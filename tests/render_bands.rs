use raytracer::bands::{assemble, band_pixels, band_rows, rows_per_band, RowBand};

#[test]
fn full_image_splits_into_equal_bands() {
    assert_eq!(rows_per_band(768, 8), 96);
    for i in 0..8 {
        assert_eq!(band_rows(i, 768, 8), RowBand { first_row: 96 * i, rows: 96 });
    }
}

#[test]
fn last_band_may_be_shorter() {
    assert_eq!(rows_per_band(10, 4), 3);
    assert_eq!(band_rows(0, 10, 4), RowBand { first_row: 0, rows: 3 });
    assert_eq!(band_rows(2, 10, 4), RowBand { first_row: 6, rows: 3 });
    assert_eq!(band_rows(3, 10, 4), RowBand { first_row: 9, rows: 1 });
}

#[test]
fn bands_past_the_image_are_empty() {
    assert_eq!(rows_per_band(10, 8), 2);
    assert_eq!(band_rows(4, 10, 8), RowBand { first_row: 8, rows: 2 });
    assert_eq!(band_rows(5, 10, 8), RowBand { first_row: 10, rows: 0 });
    assert_eq!(band_rows(7, 10, 8), RowBand { first_row: 10, rows: 0 });
}

#[test]
fn bands_cover_every_row_once() {
    for height in 0..40usize {
        for bands in 1..10usize {
            let mut next = 0;
            for i in 0..bands {
                let b = band_rows(i, height, bands);
                assert_eq!(b.first_row, next);
                next += b.rows;
            }
            assert_eq!(next, height);
        }
    }
}

#[test]
fn band_pixels_go_row_by_row() {
    let p = band_pixels(1, 3, 5, 2);
    assert_eq!(p, vec![(3, 0), (3, 1), (3, 2), (4, 0), (4, 1), (4, 2)]);
    assert_eq!(band_pixels(0, 2, 3, 2), vec![(0, 0), (0, 1), (1, 0), (1, 1)]);
    assert_eq!(band_pixels(0, 0, 3, 2), vec![]);
}

#[test]
fn assembly_follows_band_order() {
    let parts = vec![vec![1, 2], vec![], vec![3], vec![4, 5, 6]];
    assert_eq!(assemble(parts), vec![1, 2, 3, 4, 5, 6]);
    let none: Vec<Vec<u8>> = vec![];
    assert_eq!(assemble(none), Vec::<u8>::new());
}

#[test]
fn assembled_bands_give_row_major_pixels() {
    let (width, height, bands) = (5usize, 7usize, 3usize);
    let parts: Vec<Vec<(usize, usize)>> = (0..bands).map(|i| band_pixels(i, width, height, bands)).collect();
    let all = assemble(parts);
    assert_eq!(all.len(), width * height);
    for (k, &(row, col)) in all.iter().enumerate() {
        assert_eq!(row * width + col, k);
    }
}
