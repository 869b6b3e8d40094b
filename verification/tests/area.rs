use space_invaders::Area;

#[test]
fn test_area_overlaps() {
    let coordinates = vec![
        // same size
        (((0, 0), (1, 1)), ((0, 0), (1, 1))),
        // inner within outer
        (((0, 0), (3, 3)), ((1, 1), (2, 2))),
        // inner on edge of outer
        (((0, 0), (2, 2)), ((1, 1), (2, 2))),
        (((0, 0), (2, 2)), ((0, 0), (1, 1))),
        (((0, 0), (2, 2)), ((0, 1), (2, 1))),
        (((0, 0), (2, 2)), ((1, 0), (2, 1))),
        // overlap corners
        (((0, 0), (2, 2)), ((1, 1), (3, 3))),
        (((1, 1), (3, 3)), ((0, 0), (2, 2))),
        (((0, 1), (2, 3)), ((1, 0), (3, 2))),
        (((1, 0), (3, 2)), ((0, 1), (2, 3))),
        // overlap edges
        (((0, 0), (3, 3)), ((2, 1), (4, 2))),
        (((0, 0), (3, 3)), ((1, 2), (2, 4))),
        (((1, 0), (4, 3)), ((0, 1), (2, 2))),
        (((0, 1), (3, 4)), ((1, 0), (2, 2))),
    ];

    for (a, b) in coordinates.into_iter() {
        let area_a = Area::from(a);
        let area_b = Area::from(b);

        assert!(
            area_a.overlaps(area_b),
            "{:?} does not overlap {:?}",
            area_a,
            area_b
        );
    }
}

#[test]
fn test_area_not_overlaps() {
    let coordinates = vec![
        // vertical alignment
        (((0, 0), (1, 1)), ((0, 1), (1, 2))),
        (((0, 1), (1, 2)), ((0, 0), (1, 1))),
        // vertical alignment with gap
        (((0, 0), (1, 1)), ((0, 2), (1, 3))),
        (((0, 2), (1, 3)), ((0, 0), (1, 1))),
        // horizontal alignment
        (((0, 0), (1, 1)), ((1, 0), (2, 1))),
        (((1, 0), (2, 1)), ((0, 0), (1, 1))),
        // horizontal alignment with gap
        (((0, 0), (1, 1)), ((2, 0), (3, 1))),
        (((2, 0), (3, 1)), ((0, 0), (1, 1))),
        // diagonal alignment
        (((0, 0), (1, 1)), ((1, 1), (2, 2))),
        (((0, 1), (1, 2)), ((1, 0), (2, 1))),
        // diagonal alignment with gap
        (((0, 0), (1, 1)), ((2, 2), (3, 3))),
        (((0, 2), (1, 3)), ((2, 0), (3, 1))),
    ];

    for (a, b) in coordinates.into_iter() {
        let area_a = Area::from(a);
        let area_b = Area::from(b);

        assert!(
            !area_a.overlaps(area_b),
            "{:?} overlaps {:?}",
            area_a,
            area_b
        );
    }
}

#[test]
fn area_new_keeps_the_corners() {
    let area = Area::new(1, 2, 3, 4);
    assert_eq!(area.left, 1);
    assert_eq!(area.bottom, 2);
    assert_eq!(area.right, 3);
    assert_eq!(area.top, 4);
    assert_eq!(area, Area::from(((1, 2), (3, 4))));
}

#[test]
fn area_overlap_is_symmetric() {
    let a = Area::new(0, 0, 4, 4);
    let b = Area::new(3, 3, 6, 6);
    let c = Area::new(4, 0, 8, 4);
    assert_eq!(a.overlaps(b), b.overlaps(a));
    assert_eq!(a.overlaps(c), c.overlaps(a));
    assert!(a.overlaps(b));
    assert!(!a.overlaps(c));
}

#[test]
fn area_overlap_is_reflexive_only_with_an_interior() {
    let solid = Area::new(-3, -3, 2, 2);
    let flat = Area::new(0, 1, 2, 1);
    let point = Area::new(5, 5, 5, 5);
    assert!(solid.overlaps(solid));
    assert!(!flat.overlaps(flat));
    assert!(!point.overlaps(point));
}

#[test]
fn area_contains_is_strict() {
    let area = Area::new(0, 0, 3, 3);
    assert!(area.contains(1, 1));
    assert!(area.contains(2, 2));
    assert!(!area.contains(0, 1));
    assert!(!area.contains(3, 1));
    assert!(!area.contains(1, 0));
    assert!(!area.contains(1, 3));
    assert!(!area.contains(-1, 1));
    assert!(!area.contains(4, 5));
}
