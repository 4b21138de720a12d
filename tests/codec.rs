use rand::{thread_rng, Rng};

use morton::utils::{idx_tile, idx_tile_tuple};
use morton::{deinterleave_morton, interleave_morton};

#[test]
fn interleave() {
    let mut tile_morton = [0; 32 * 32]; // 1024 locations
    let mut tile_normal = [0; 32 * 32]; // 1024 locations
                                        // fill tiles with same random numbers
    for x in 0..32 {
        for y in 0..32 {
            let random = thread_rng().gen::<u32>();
            tile_morton[interleave_morton(x as u16, y as u16) as usize] = random;
            tile_normal[idx_tile(x, y, 32)] = random;
        }
    }
    // check that the same random numbers are stored there
    // (morton curve did not override it's own elements)
    for x in 0..32 {
        for y in 0..32 {
            let morton = tile_morton[interleave_morton(x as u16, y as u16) as usize];
            let normal = tile_normal[idx_tile(x, y, 32)];
            assert!(morton == normal);
        }
    }
}

#[test]
fn deinterleave() {
    let mut tile_morton = [0; 32 * 32]; // 1024 locations
    let mut tile_normal = [0; 32 * 32]; // 1024 locations
                                        // fill tiles with same random numbers
    for x in 0..32 {
        for y in 0..32 {
            let random = thread_rng().gen::<u32>();
            tile_morton[interleave_morton(x as u16, y as u16) as usize] = random;
            tile_normal[idx_tile(x, y, 32)] = random;
        }
    }
    // check that the same random numbers are stored there
    // (morton curve did not override it's own elements)
    for z in 0..1024 {
        let morton = tile_morton[z];
        let normal = tile_normal[idx_tile_tuple(deinterleave_morton(z as u32), 32)];
        assert!(morton == normal);
    }
}

#[test]
fn deinterleave_interleave() {
    for z in 0..65536 {
        let (x, y) = deinterleave_morton(z);
        let morton = interleave_morton(x, y);
        assert!(morton == z);
    }
}

#[test]
fn interleave_deinterleave() {
    for x in 0..1024 {
        for y in 0..1024 {
            let morton = interleave_morton(x, y);
            let (d_x, d_y) = deinterleave_morton(morton);
            assert!(d_x == x && d_y == y);
        }
    }
}

// tests with random input
#[test]
fn rand_interleave_deinterleave_1000() {
    for _ in 0..1024 {
        let x = thread_rng().gen::<u16>();
        let y = thread_rng().gen::<u16>();
        let morton = interleave_morton(x, y);
        let (d_x, d_y) = deinterleave_morton(morton);
        assert!(d_x == x && d_y == y);
    }
}

#[test]
fn rand_deinterleave_interleave_1000() {
    for _ in 0..1024 {
        let z = thread_rng().gen::<u32>();
        let (x, y) = deinterleave_morton(z);
        let morton = interleave_morton(x, y);
        assert!(morton == z);
    }
}

#[test]
fn interleave_known_values() {
    assert_eq!(interleave_morton(0, 0), 0);
    assert_eq!(interleave_morton(1, 0), 1);
    assert_eq!(interleave_morton(0, 1), 2);
    assert_eq!(interleave_morton(1, 1), 3);
    assert_eq!(interleave_morton(2, 0), 4);
    assert_eq!(interleave_morton(3, 3), 15);
    assert_eq!(interleave_morton(0xFFFF, 0), 0x5555_5555);
    assert_eq!(interleave_morton(0, 0xFFFF), 0xAAAA_AAAA);
    assert_eq!(interleave_morton(0xFFFF, 0xFFFF), 0xFFFF_FFFF);
    assert_eq!(interleave_morton(0x8000, 0), 0x4000_0000);
    assert_eq!(interleave_morton(0, 0x8000), 0x8000_0000);
}

#[test]
fn deinterleave_known_values() {
    assert_eq!(deinterleave_morton(0), (0, 0));
    assert_eq!(deinterleave_morton(1), (1, 0));
    assert_eq!(deinterleave_morton(2), (0, 1));
    assert_eq!(deinterleave_morton(15), (3, 3));
    assert_eq!(deinterleave_morton(0x5555_5555), (0xFFFF, 0));
    assert_eq!(deinterleave_morton(0xAAAA_AAAA), (0, 0xFFFF));
    assert_eq!(deinterleave_morton(0xFFFF_FFFF), (0xFFFF, 0xFFFF));
}

#[test]
fn round_trip_far_values() {
    let pairs: [(u16, u16); 4] = [(0x1234, 0xABCD), (0xFFFF, 0x0001), (0x8001, 0x7FFE), (12345, 54321)];
    for (x, y) in pairs {
        assert_eq!(deinterleave_morton(interleave_morton(x, y)), (x, y));
    }
    let keys: [u32; 4] = [0xDEAD_BEEF, 0x8000_0001, 0x1234_5678, u32::MAX - 1];
    for z in keys {
        let (x, y) = deinterleave_morton(z);
        assert_eq!(interleave_morton(x, y), z);
    }
}

#[test]
fn interleave_distinct_keys_on_small_square() {
    let mut seen = vec![false; 256 * 256];
    for x in 0..256u16 {
        for y in 0..256u16 {
            let z = interleave_morton(x, y) as usize;
            assert!(z < 256 * 256);
            assert!(!seen[z]);
            seen[z] = true;
        }
    }
}

#[test]
fn row_major_indices() {
    assert_eq!(idx_tile(0, 0, 32), 0);
    assert_eq!(idx_tile(3, 2, 32), 67);
    assert_eq!(idx_tile(5, 7, 10), 75);
    assert_eq!(idx_tile_tuple((3, 2), 32), 67);
    assert_eq!(idx_tile_tuple((0, 1), 4), 4);
    assert_eq!(idx_tile_tuple(deinterleave_morton(15), 4), 15);
}
