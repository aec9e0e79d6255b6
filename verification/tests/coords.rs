use hexsky::{Axial, Direction, HexGeometry, PixelVec};

const ALL_DIRECTIONS: [Direction; 6] = [
    Direction::East,
    Direction::NorthEast,
    Direction::NorthWest,
    Direction::West,
    Direction::SouthWest,
    Direction::SouthEast,
];

#[test]
fn test_add() {
    let zero = Axial::new(0, 0);
    assert_eq!(zero.plus(zero), zero);
    assert_eq!(zero.plus(Axial::new(5, 1)), Axial::new(5, 1));
    assert_eq!(
        zero.plus(Direction::East.as_axial()),
        Direction::East.as_axial()
    );
    assert_eq!(
        zero.plus(Direction::NorthEast.as_axial()),
        Direction::NorthEast.as_axial()
    );
    assert_eq!(
        zero.plus(Direction::NorthWest.as_axial()),
        Direction::NorthWest.as_axial()
    );
    assert_eq!(
        zero.plus(Direction::West.as_axial()),
        Direction::West.as_axial()
    );
    assert_eq!(
        zero.plus(Direction::SouthWest.as_axial()),
        Direction::SouthWest.as_axial()
    );
    assert_eq!(
        zero.plus(Direction::SouthEast.as_axial()),
        Direction::SouthEast.as_axial()
    );
}

#[test]
fn test_mul() {
    let zero = Axial::new(0, 0);
    assert_eq!(zero.scale(10), zero);
    assert_eq!(Axial::new(0, 1).scale(0), zero);
}

#[test]
fn component_arithmetic() {
    let a = Axial::new(3, -2);
    let b = Axial::new(-1, 4);
    assert_eq!(a.plus(b), Axial::new(2, 2));
    assert_eq!(a.minus(b), Axial::new(4, -6));
    assert_eq!(a.negate(), Axial::new(-3, 2));
    assert_eq!(a.scale(3), Axial::new(9, -6));
    assert_eq!(a.s(), -1);
    assert_eq!(Axial::new(7, -4).s(), -3);
}

#[test]
fn neighbor_opposite_returns_home() {
    let origin = Axial::new(0, 0);
    for d in ALL_DIRECTIONS {
        let there = origin.neighbor(d);
        let back = there.neighbor(d.opposite());
        assert_eq!(back, origin);
    }
    let far = Axial::new(12, -7);
    for d in ALL_DIRECTIONS {
        assert_eq!(far.neighbor(d).neighbor(d.opposite()), far);
    }
}

#[test]
fn adjacency_offsets_match_lattice() {
    assert_eq!(Direction::East.as_axial(), Axial::new(1, 0));
    assert_eq!(Direction::NorthEast.as_axial(), Axial::new(0, 1));
    assert_eq!(Direction::NorthWest.as_axial(), Axial::new(-1, 1));
    assert_eq!(Direction::West.as_axial(), Axial::new(-1, 0));
    assert_eq!(Direction::SouthWest.as_axial(), Axial::new(0, -1));
    assert_eq!(Direction::SouthEast.as_axial(), Axial::new(1, -1));
}

#[test]
fn offsets_pairwise_distinct_and_negation_closed() {
    for d1 in ALL_DIRECTIONS {
        for d2 in ALL_DIRECTIONS {
            if d1 != d2 {
                assert_ne!(d1.as_axial(), d2.as_axial());
            }
        }
        assert_eq!(d1.opposite().as_axial(), d1.as_axial().negate());
    }
}

#[test]
fn inversions_are_involutions() {
    for d in ALL_DIRECTIONS {
        assert_eq!(d.invert_x().invert_x(), d);
        assert_eq!(d.invert_y().invert_y(), d);
    }
    assert_eq!(Direction::East.invert_x(), Direction::West);
    assert_eq!(Direction::NorthEast.invert_x(), Direction::NorthWest);
    assert_eq!(Direction::East.invert_y(), Direction::East);
    assert_eq!(Direction::NorthEast.invert_y(), Direction::SouthEast);
    assert_eq!(Direction::SouthWest.invert_y(), Direction::NorthWest);
}

#[test]
fn direction_images_sit_at_sixty_degree_steps() {
    // pixel images of the six adjacency vectors for 48x52 pixel tiles:
    // East due east, then one 60-degree step counter-clockwise each
    let g = HexGeometry::new(24, 39).unwrap();
    let image = |d: Direction| g.to_cartesian(d.as_axial());
    assert_eq!(image(Direction::East), PixelVec { x: 48, y: 0 });
    assert_eq!(image(Direction::NorthEast), PixelVec { x: 24, y: 39 });
    assert_eq!(image(Direction::NorthWest), PixelVec { x: -24, y: 39 });
    assert_eq!(image(Direction::West), PixelVec { x: -48, y: 0 });
    assert_eq!(image(Direction::SouthWest), PixelVec { x: -24, y: -39 });
    assert_eq!(image(Direction::SouthEast), PixelVec { x: 24, y: -39 });
}

#[test]
fn reflections_mirror_pixel_images() {
    let g = HexGeometry::new(24, 39).unwrap();
    for d in ALL_DIRECTIONS {
        let p = g.to_cartesian(d.as_axial());
        let mx = g.to_cartesian(d.invert_x().as_axial());
        let my = g.to_cartesian(d.invert_y().as_axial());
        let op = g.to_cartesian(d.opposite().as_axial());
        assert_eq!(mx, PixelVec { x: -p.x, y: p.y });
        assert_eq!(my, PixelVec { x: p.x, y: -p.y });
        assert_eq!(op, PixelVec { x: -p.x, y: -p.y });
    }
}

#[test]
fn angles_run_counter_clockwise_from_east() {
    let expected: [(Direction, u32); 6] = [
        (Direction::East, 0),
        (Direction::NorthEast, 1),
        (Direction::NorthWest, 2),
        (Direction::West, 3),
        (Direction::SouthWest, 4),
        (Direction::SouthEast, 5),
    ];
    for (d, k) in expected {
        assert_eq!(d.as_angle_sixths(), k);
    }
}
