use hexsky::{BufferError, HexGeometry, ScrollState, TileBuffer};
use rand::RngExt;
use wyrand::WyRand;

fn geom() -> HexGeometry {
    // tile period (48, 78): half tile width 24, row step 39
    HexGeometry::new(24, 39).unwrap()
}

#[test]
fn buffer_construction_rejects_degenerate_configs() {
    let mut rng = WyRand::new(1);
    assert_eq!(
        TileBuffer::new_random(0, 4, 8, &mut rng),
        Err(BufferError::ZeroDimension)
    );
    assert_eq!(
        TileBuffer::new_random(4, 0, 8, &mut rng),
        Err(BufferError::ZeroDimension)
    );
    assert_eq!(
        TileBuffer::new_random(5000, 4, 8, &mut rng),
        Err(BufferError::TooLarge)
    );
    assert_eq!(
        TileBuffer::new_random(4, 4097, 8, &mut rng),
        Err(BufferError::TooLarge)
    );
    assert_eq!(
        TileBuffer::new_random(4, 4, 0, &mut rng),
        Err(BufferError::ZeroVariants)
    );
}

#[test]
fn new_random_draws_from_the_given_stream() {
    let mut twin = WyRand::new(7);
    let expected: Vec<u32> = (0..4).map(|_| twin.random_range(0..5)).collect();
    let mut rng = WyRand::new(7);
    let b = TileBuffer::new_random(2, 2, 5, &mut rng).unwrap();
    assert_eq!(b.get(0, 0), expected[0]);
    assert_eq!(b.get(1, 0), expected[1]);
    assert_eq!(b.get(0, 1), expected[2]);
    assert_eq!(b.get(1, 1), expected[3]);
}

#[test]
fn forced_column_shift_recycles_the_window() {
    // width 3, height 2, tile period (48, 78), 8 variants, and a
    // whole-tile displacement of (1, 0) forced directly: every cell
    // copies from its left neighbor, and the column whose source lies
    // outside the window is freshly randomized, in scan order.
    let mut buffer = TileBuffer {
        width: 3,
        height: 2,
        variant_count: 8,
        tiles: vec![0, 1, 2, 3, 4, 5],
    };
    let mut twin = WyRand::new(1234);
    let fresh0: u32 = twin.random_range(0..8);
    let fresh1: u32 = twin.random_range(0..8);
    let mut rng = WyRand::new(1234);
    buffer.apply_tile_diff(1, 0, &mut rng);
    assert_eq!(buffer.get(1, 0), 0);
    assert_eq!(buffer.get(2, 0), 1);
    assert_eq!(buffer.get(1, 1), 3);
    assert_eq!(buffer.get(2, 1), 4);
    assert_eq!(buffer.get(0, 0), fresh0);
    assert_eq!(buffer.get(0, 1), fresh1);
}

#[test]
fn vertical_shift_spans_two_rows_with_column_correction() {
    // A displacement of (0, 1) moves cells by (-1, 2) in the window:
    // cell (x, y) takes over the variant previously at (x + 1, y - 2).
    let mut buffer = TileBuffer {
        width: 3,
        height: 4,
        variant_count: 12,
        tiles: (0..12).collect(),
    };
    let mut rng = WyRand::new(99);
    buffer.apply_tile_diff(0, 1, &mut rng);
    // rows 2 and 3 copy from rows 0 and 1, one column to the right
    assert_eq!(buffer.get(0, 2), 1);
    assert_eq!(buffer.get(1, 2), 2);
    assert_eq!(buffer.get(0, 3), 4);
    assert_eq!(buffer.get(1, 3), 5);
    // every other cell was reseeded and stays a valid variant
    for y in 0..4 {
        for x in 0..3 {
            assert!(buffer.get(x, y) < 12);
        }
    }
}

#[test]
fn displacement_beyond_the_window_reseeds_everything() {
    let mut rng = WyRand::new(5);
    let buffer = TileBuffer::new_random(4, 4, 3, &mut rng).unwrap();
    let mut state = ScrollState::new(geom(), buffer);
    // 100 seconds at (5, 2) hex units per second: hundreds of whole-tile
    // crossings at once, far beyond a 4x4 window
    state.tick(100_000_000, 5000, 2000, &mut rng);
    for y in 0..4 {
        for x in 0..4 {
            assert!(state.buffer.get(x, y) < 3);
        }
    }
}

#[test]
fn sub_tile_motion_only_moves_the_offset() {
    let mut rng = WyRand::new(11);
    let buffer = TileBuffer::new_random(5, 3, 7, &mut rng).unwrap();
    let before: Vec<u32> = buffer.tiles.clone();
    let mut state = ScrollState::new(geom(), buffer);
    // 0.1 s at 1 hex unit per second along q: 4.8 pixels, well inside
    // the 48 pixel horizontal period
    state.tick(100_000, 1000, 0, &mut rng);
    assert_eq!(state.offset_x, 4_800_000);
    assert_eq!(state.offset_y, 0);
    assert_eq!(state.buffer.tiles, before);
}

#[test]
fn offset_stays_inside_one_tile_period() {
    let mut rng = WyRand::new(21);
    let buffer = TileBuffer::new_random(6, 5, 9, &mut rng).unwrap();
    let mut state = ScrollState::new(geom(), buffer);
    let period_x = 48_000_000i64;
    let period_y = 78_000_000i64;
    let speeds = [
        (5000i64, 2000i64),
        (-3000, 7000),
        (0, -9000),
        (123_456, -654_321),
        (1_000_000, 1_000_000),
    ];
    for step in 0..50u64 {
        let (sq, sr) = speeds[(step % 5) as usize];
        state.tick(16_666 + step * 1000, sq, sr, &mut rng);
        assert!(state.offset_x.abs() < period_x);
        assert!(state.offset_y.abs() < period_y);
        // conservation: every cell always holds a valid variant
        for y in 0..5 {
            for x in 0..6 {
                assert!(state.buffer.get(x, y) < 9);
            }
        }
    }
}

#[test]
fn zero_speed_ticks_change_nothing() {
    let mut rng = WyRand::new(31);
    let buffer = TileBuffer::new_random(4, 4, 6, &mut rng).unwrap();
    let cells: Vec<u32> = buffer.tiles.clone();
    let mut state = ScrollState {
        geom: geom(),
        buffer,
        offset_x: 123_456,
        offset_y: -7_890,
    };
    let rng_before = rng.clone();
    for dt in [0u64, 1, 16_666, 1_000_000, 100_000_000] {
        state.tick(dt, 0, 0, &mut rng);
        assert_eq!(state.offset_x, 123_456);
        assert_eq!(state.offset_y, -7_890);
        assert_eq!(state.buffer.tiles, cells);
        // the random generator is not advanced by a no-crossing tick
        assert!(rng == rng_before);
    }
}
