use hexsky::{Axial, FracAxial, GeometryError, HexGeometry, PixelVec};

fn geom() -> HexGeometry {
    HexGeometry::new(24, 39).unwrap()
}

#[test]
fn geometry_construction_rejects_degenerate_periods() {
    assert!(HexGeometry::new(24, 39).is_ok());
    assert_eq!(HexGeometry::new(0, 39), Err(GeometryError::NonPositive));
    assert_eq!(HexGeometry::new(24, -1), Err(GeometryError::NonPositive));
    assert_eq!(
        HexGeometry::new(2000000, 39),
        Err(GeometryError::TooLarge)
    );
    assert_eq!(
        HexGeometry::new(24, 1048577),
        Err(GeometryError::TooLarge)
    );
}

#[test]
fn to_cartesian_matches_transform() {
    let g = geom();
    // x = 24 * (2q + r), y = 39 * r
    assert_eq!(
        g.to_cartesian(Axial::new(0, 0)),
        PixelVec { x: 0, y: 0 }
    );
    assert_eq!(
        g.to_cartesian(Axial::new(1, 0)),
        PixelVec { x: 48, y: 0 }
    );
    assert_eq!(
        g.to_cartesian(Axial::new(0, 1)),
        PixelVec { x: 24, y: 39 }
    );
    assert_eq!(
        g.to_cartesian(Axial::new(-2, 3)),
        PixelVec { x: -24, y: 117 }
    );
}

#[test]
fn round_trip_recovers_every_cell() {
    let g = geom();
    let samples = [
        (0, 0),
        (1, 0),
        (0, 1),
        (-1, 0),
        (0, -1),
        (5, -3),
        (-17, 11),
        (123456, -654321),
        (-1000000, 1000000),
    ];
    for (q, r) in samples {
        let a = Axial::new(q, r);
        let p = g.to_cartesian(a);
        let f = g.from_cartesian(p);
        assert_eq!(f.round_to_nearest_hex(), a);
    }
}

#[test]
fn inverse_transform_is_exact() {
    let g = geom();
    let den = 2 * 24 * 39; // the common denominator of the inverse
    let samples = [
        (0, 0),
        (1, 1),
        (-7, 13),
        (48, 78),
        (-1000, 999),
        (360000, -240000),
    ];
    for (x, y) in samples {
        let f = g.from_cartesian(PixelVec { x, y });
        assert_eq!(f.den, den);
        // Applying the forward transform to the fractional coordinate
        // gives back exactly (x, y), scaled by the denominator.
        assert_eq!(24 * (2 * f.q_num + f.r_num), (x as i128) * den);
        assert_eq!(39 * f.r_num, (y as i128) * den);
    }
}

#[test]
fn rounding_snaps_to_nearest_cell() {
    // 0.3 rounds down, 0.7 rounds up, on either axis
    assert_eq!(
        FracAxial::new(3, 0, 10).round_to_nearest_hex(),
        Axial::new(0, 0)
    );
    assert_eq!(
        FracAxial::new(7, 0, 10).round_to_nearest_hex(),
        Axial::new(1, 0)
    );
    assert_eq!(
        FracAxial::new(0, -7, 10).round_to_nearest_hex(),
        Axial::new(0, -1)
    );
    assert_eq!(
        FracAxial::new(23, -41, 10).round_to_nearest_hex(),
        Axial::new(2, -4)
    );
}

#[test]
fn rounding_restores_cube_constraint() {
    // (1.4, -0.6): naive per-axis rounding gives (1, -1) with s = 0,
    // but s = -0.8 rounds to -1; the largest error is corrected so that
    // q + r + s == 0 again.
    let a = FracAxial::new(14, -6, 10).round_to_nearest_hex();
    assert_eq!(i64::from(a.q) + i64::from(a.r) + a.s(), 0);
    let b = FracAxial::new(49, 49, 100).round_to_nearest_hex();
    assert_eq!(i64::from(b.q) + i64::from(b.r) + b.s(), 0);
}

#[test]
fn rounding_tie_is_deterministic() {
    // (0.5, 0.0) is exactly between the cells (0, 0) and (1, 0): the
    // fixed tie-break resolves it the same way on every call.
    let first = FracAxial::new(1, 0, 2).round_to_nearest_hex();
    for _ in 0..100 {
        let again = FracAxial::new(1, 0, 2).round_to_nearest_hex();
        assert_eq!(again, first);
    }
    assert_eq!(first, Axial::new(0, 0));
}
