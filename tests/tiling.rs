use morton::layout::{build_tiled_layout, DimensionMismatch, Tile};
use morton::tiling::derive_tile_side;
use morton::deinterleave_morton;

#[test]
fn tile_side_of_four_by_eight() {
    assert_eq!(derive_tile_side(4, 8), 4);
    assert_eq!(derive_tile_side(8, 4), 4);
}

#[test]
fn tile_side_of_square_powers_of_two() {
    for k in 0..=16u32 {
        let n = 1usize << k;
        assert_eq!(derive_tile_side(n, n), n);
    }
    // the side stops at 2^16, whatever the grid
    assert_eq!(derive_tile_side(1 << 17, 1 << 17), 1 << 16);
    assert_eq!(derive_tile_side(1 << 20, 1 << 18), 1 << 16);
}

#[test]
fn tile_side_of_uneven_grids() {
    assert_eq!(derive_tile_side(6, 10), 2);
    assert_eq!(derive_tile_side(3, 5), 1);
    assert_eq!(derive_tile_side(12, 8), 4);
    assert_eq!(derive_tile_side(1, 1024), 1);
    assert_eq!(derive_tile_side(48, 40), 8);
    assert_eq!(derive_tile_side(7, 7), 1);
}

#[test]
fn tile_side_divides_both_dimensions() {
    for w in 1..40usize {
        for h in 1..40usize {
            let side = derive_tile_side(w, h);
            assert!(side.is_power_of_two());
            assert_eq!(w % side, 0);
            assert_eq!(h % side, 0);
            assert!(w % (2 * side) != 0 || h % (2 * side) != 0);
            assert_eq!(derive_tile_side(w, h), side);
        }
    }
}

fn coordinate_grid(width: usize, height: usize) -> Vec<(usize, usize)> {
    let mut v = Vec::with_capacity(width * height);
    for y in 0..height {
        for x in 0..width {
            v.push((x, y));
        }
    }
    v
}

#[test]
fn four_by_eight_tiles_reproduce_every_coordinate_once() {
    let layout = build_tiled_layout(4, 8, coordinate_grid(4, 8)).unwrap();
    assert_eq!(layout.side(), 4);
    assert_eq!(layout.tile_len(), 16);
    assert_eq!(layout.tile_count(), 2);
    let mut seen = vec![false; 4 * 8];
    for t in 0..layout.tile_count() {
        let tile = layout.tile(t);
        for i in 0..layout.tile_len() {
            let (lx, ly) = deinterleave_morton(i as u32);
            let x = tile.col * layout.side() + lx as usize;
            let y = tile.row * layout.side() + ly as usize;
            assert_eq!(*layout.tile_element(t, i), (x, y));
            assert!(!seen[y * 4 + x]);
            seen[y * 4 + x] = true;
        }
    }
    assert!(seen.iter().all(|s| *s));
}

#[test]
fn element_at_reads_the_original_cell() {
    for (w, h) in [(4usize, 8usize), (6, 10), (3, 5), (16, 16), (12, 8)] {
        let layout = build_tiled_layout(w, h, coordinate_grid(w, h)).unwrap();
        assert_eq!(layout.width(), w);
        assert_eq!(layout.height(), h);
        assert_eq!(layout.as_slice().len(), w * h);
        for y in 0..h {
            for x in 0..w {
                assert_eq!(*layout.element_at(x, y), (x, y));
            }
        }
    }
}

#[test]
fn four_by_two_buffer_order() {
    let data: Vec<u32> = (0..8).collect();
    let layout = build_tiled_layout(4, 2, data).unwrap();
    assert_eq!(layout.side(), 2);
    assert_eq!(layout.as_slice(), &[0, 1, 4, 5, 2, 3, 6, 7]);
    assert_eq!(
        layout.tiles(),
        vec![
            Tile { col: 0, row: 0, offset: 0, len: 4 },
            Tile { col: 1, row: 0, offset: 4, len: 4 },
        ]
    );
}

#[test]
fn two_by_four_tiles_stack_vertically() {
    let data: Vec<u32> = (0..8).collect();
    let layout = build_tiled_layout(2, 4, data).unwrap();
    assert_eq!(layout.as_slice(), &[0, 1, 2, 3, 4, 5, 6, 7]);
    assert_eq!(layout.tile(1), Tile { col: 0, row: 1, offset: 4, len: 4 });
}

#[test]
fn eight_by_eight_is_one_morton_tile() {
    let data: Vec<u32> = (0..64).collect();
    let layout = build_tiled_layout(8, 8, data).unwrap();
    assert_eq!(layout.tile_count(), 1);
    for (i, v) in layout.as_slice().iter().enumerate() {
        let (x, y) = deinterleave_morton(i as u32);
        assert_eq!(*v, y as u32 * 8 + x as u32);
    }
}

#[test]
fn owned_elements_are_moved() {
    let data: Vec<String> = (0..6).map(|i| format!("cell{}", i)).collect();
    let layout = build_tiled_layout(3, 2, data).unwrap();
    assert_eq!(layout.side(), 1);
    assert_eq!(layout.tile_count(), 6);
    let names: Vec<&str> = layout.as_slice().iter().map(|s| s.as_str()).collect();
    assert_eq!(names, vec!["cell0", "cell1", "cell2", "cell3", "cell4", "cell5"]);
}

#[test]
fn short_buffer_is_rejected() {
    let r = build_tiled_layout(4, 8, coordinate_grid(4, 7));
    assert_eq!(r.err(), Some(DimensionMismatch { width: 4, height: 8, len: 28 }));
}

#[test]
fn long_buffer_is_rejected() {
    let data: Vec<u8> = vec![0; 33];
    let r = build_tiled_layout(4, 8, data);
    assert_eq!(r.err(), Some(DimensionMismatch { width: 4, height: 8, len: 33 }));
}

#[test]
fn overflowing_dimensions_are_rejected() {
    let data: Vec<u8> = Vec::new();
    let r = build_tiled_layout(usize::MAX, 2, data);
    assert_eq!(r.err(), Some(DimensionMismatch { width: usize::MAX, height: 2, len: 0 }));
}
