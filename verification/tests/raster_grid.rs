use heightmap::raster::get_position;
use heightmap::raster::rasterize;

#[test]
fn position_flips_rows_bottom_up() {
    // 2x2 grid: stream row 0 is the top row, image row 0 is the bottom.
    assert_eq!(get_position(&0usize, &2u32, &2u32), (0, 1));
    assert_eq!(get_position(&1usize, &2u32, &2u32), (1, 1));
    assert_eq!(get_position(&2usize, &2u32, &2u32), (0, 0));
    assert_eq!(get_position(&3usize, &2u32, &2u32), (1, 0));
}

#[test]
fn position_round_trips_to_index() {
    let w = 5u32;
    let h = 3u32;
    for index in 0..(w * h) as usize {
        let (x, y) = get_position(&index, &w, &h);
        let back = (h - 1 - y) * w + x;
        assert_eq!(back as usize, index);
    }
}

#[test]
fn rasterize_places_intensities_at_flipped_rows() {
    // 2x2 grid, cells 0 and 3 enabled with intensities 10 and 20.
    // Cell 0 (top-left of the stream) lands at image row 1 -> grid[2];
    // cell 3 (bottom-right) lands at image row 0 -> grid[1].
    let enabled = vec![1u8, 0, 0, 1];
    let intensities = vec![10u8, 20];
    let grid = rasterize(2, 2, &enabled, &intensities);
    assert_eq!(grid, vec![0u8, 20, 10, 0]);
}

#[test]
fn rasterize_leaves_disabled_cells_black() {
    let enabled = vec![0u8, 0, 0, 0, 0, 0];
    let intensities: Vec<u8> = Vec::new();
    let grid = rasterize(3, 2, &enabled, &intensities);
    assert_eq!(grid, vec![0u8; 6]);
}

#[test]
fn rasterize_single_cell() {
    let enabled = vec![1u8];
    let intensities = vec![255u8];
    let grid = rasterize(1, 1, &enabled, &intensities);
    assert_eq!(grid, vec![255u8]);
}

#[test]
fn rasterize_empty_grid() {
    let enabled: Vec<u8> = Vec::new();
    let intensities: Vec<u8> = Vec::new();
    let grid = rasterize(0, 9, &enabled, &intensities);
    assert_eq!(grid.len(), 0);
}

#[test]
fn rasterize_keeps_point_order_along_rows() {
    // 3x2 grid, all enabled: stream order fills the top row first, so
    // the first three intensities land in the upper image row (grid
    // positions 3..6) and the next three in the lower (0..3).
    let enabled = vec![1u8; 6];
    let intensities = vec![1u8, 2, 3, 4, 5, 6];
    let grid = rasterize(3, 2, &enabled, &intensities);
    assert_eq!(grid, vec![4u8, 5, 6, 1, 2, 3]);
}
