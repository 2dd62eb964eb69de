use total_viewsheds::joiner::{
    scan_openings, touching_polygons, AngleSegment, GrowablePolygon, Join, JoinError, Joiner,
};
use total_viewsheds::vertices::{
    contact, find_contact, find_openings, Coord, Double, FoundOpening, Opening, OpeningsIterator,
    Vertex,
};

fn vertex(opening: Opening) -> Vertex {
    Vertex {
        coordinate: Coord {
            x: Double(1.0f64.to_bits()),
            y: Double(2.0f64.to_bits()),
        },
        opening,
    }
}

fn opening(index: usize, start: u32, end: u32) -> FoundOpening {
    FoundOpening { index, start, end }
}

fn two_openings() -> Vec<Vertex> {
    [
        Opening::GenesisStart(0),
        Opening::GenesisEnd(3),
        Opening::End(4),
        Opening::Start(2),
        Opening::Null,
        Opening::End(9),
        Opening::Start(7),
    ]
    .iter()
    .map(|opening| vertex(*opening))
    .collect()
}

fn polygon(furthest_opening: u32) -> GrowablePolygon {
    GrowablePolygon::new(vec![], furthest_opening, false)
}

fn distances(polygons: &[GrowablePolygon]) -> Vec<u32> {
    polygons.iter().map(|polygon| polygon.furthest_opening).collect()
}

#[test]
fn the_centre_is_zero_of_any_sign() {
    let at = |x: f64, y: f64| Vertex {
        coordinate: Coord {
            x: Double(x.to_bits()),
            y: Double(y.to_bits()),
        },
        opening: Opening::Null,
    };
    assert!(at(0.0, 0.0).is_centre());
    assert!(at(-0.0, 0.0).is_centre());
    assert!(!at(0.0, 1e-300).is_centre());
    assert!(!at(f64::NAN, 0.0).is_centre());
}

#[test]
fn openings_are_found_from_the_last() {
    let vertices = two_openings();
    let expected = [opening(6, 7, 9), opening(3, 2, 4)];
    assert_eq!(find_openings(&vertices), expected);
    assert_eq!(scan_openings(&vertices).unwrap(), expected);
    let mut iterator = OpeningsIterator::new(&vertices);
    assert_eq!(iterator.next(), Some(expected[0]));
    assert_eq!(iterator.next(), Some(expected[1]));
    assert_eq!(iterator.next(), None);
}

#[test]
fn contact_covers_all_that_touches() {
    let openings = [opening(9, 1, 2), opening(6, 3, 4), opening(3, 5, 6)];
    assert_eq!(contact(&openings, &[false, false, false]), None);
    assert_eq!(contact(&openings, &[false, true, false]), Some((6, 6)));
    assert_eq!(contact(&openings, &[true, false, true]), Some((3, 9)));
    assert_eq!(find_contact(&two_openings(), &[true, true]), Some((3, 6)));
    assert_eq!(find_contact(&two_openings(), &[false, true]), Some((3, 3)));
}

#[test]
fn openings_that_do_not_belong_together() {
    let scan = |openings: &[Opening]| {
        let vertices: Vec<Vertex> = openings.iter().map(|opening| vertex(*opening)).collect();
        scan_openings(&vertices).unwrap_err()
    };
    let alone = scan(&[Opening::Start(1)]);
    assert_eq!(alone, JoinError::OpeningWithoutVertex);
    assert_eq!(alone.message(), "Opening without following vertex");
    let no_end = scan(&[Opening::Null, Opening::Start(1)]);
    assert_eq!(no_end, JoinError::StartWithoutEnd);
    assert_eq!(no_end.message(), "Opening start not followed by opening end");
    let no_start = scan(&[Opening::End(1), Opening::Null]);
    assert_eq!(no_start, JoinError::UnexpectedEnd);
    assert_eq!(no_start.message(), "Unexpected opening end reached");
}

#[test]
fn polygons_know_what_touches_them() {
    let growable = GrowablePolygon::new(two_openings(), 9, true);
    assert!(growable.is_created_at_angle_0);
    assert!(!growable.is_touched);
    assert_eq!(growable.touching_range(&[true, false]), Ok(Some((6, 6))));
    assert_eq!(growable.touching_range(&[false, false]), Ok(None));
    let broken = GrowablePolygon::new(vec![vertex(Opening::End(1))], 1, false);
    assert_eq!(
        broken.touching_range(&[]),
        Err(JoinError::UnexpectedEnd)
    );
}

#[test]
fn polygons_are_prepared_by_distance() {
    let mut joiner = Joiner::new();
    for distance in [5, 1, 9, 1] {
        joiner.active.push(polygon(distance));
    }
    joiner.active[3].is_touched = true;
    joiner.active[3].is_created_at_angle_0 = true;
    joiner.prepare_active_polygons();
    assert_eq!(distances(&joiner.active), [1, 1, 5, 9]);
    assert!(joiner.active.iter().all(|polygon| !polygon.is_touched));
    // Of two that are as far, the first one stays first.
    assert!(!joiner.active[0].is_created_at_angle_0);
    assert!(joiner.active[1].is_created_at_angle_0);
}

#[test]
fn a_segment_joins_all_that_it_touches() {
    let mut joiner = Joiner::new();
    for distance in 0..6 {
        joiner.active.push(polygon(distance));
    }
    let plan = joiner.touch_segment(&[false, true, true, false, true, true]);
    assert!(plan.is_segment_touching_anything);
    assert_eq!(
        plan.joins,
        [
            Join::Segment { base: 1 },
            Join::Polygon { base: 2, joining: 1 },
            Join::Segment { base: 4 },
            Join::Polygon { base: 5, joining: 4 },
        ]
    );
    assert_eq!(plan.joined_polygons_to_remove, [1, 4]);
    let touched: Vec<bool> = joiner.active.iter().map(|polygon| polygon.is_touched).collect();
    assert_eq!(touched, [false, true, true, false, true, true]);

    // What comes later has moved up by the time that it is removed.
    joiner.remove_joined_polygons(&plan.joined_polygons_to_remove);
    assert_eq!(distances(&joiner.active), [0, 2, 3, 4]);

    let nothing = joiner.touch_segment(&[false; 4]);
    assert!(!nothing.is_segment_touching_anything);
    assert!(nothing.joins.is_empty());
    assert!(nothing.joined_polygons_to_remove.is_empty());
    joiner.remove_joined_polygons(&nothing.joined_polygons_to_remove);
    assert_eq!(distances(&joiner.active), [0, 2, 3, 4]);
}

#[test]
fn only_the_last_of_a_row_stays() {
    let remaining = |touches: &[bool]| {
        let mut joiner = Joiner::new();
        for distance in 0..touches.len() as u32 {
            joiner.active.push(polygon(distance));
        }
        let plan = joiner.touch_segment(touches);
        joiner.remove_joined_polygons(&plan.joined_polygons_to_remove);
        assert!(joiner.completed.is_empty());
        (plan.joined_polygons_to_remove, distances(&joiner.active))
    };
    assert_eq!(remaining(&[true, true, true]), (vec![0, 0], vec![2]));
    assert_eq!(
        remaining(&[true, false, true, true, false, true]),
        (vec![2], vec![0, 1, 3, 4, 5])
    );
    assert_eq!(
        remaining(&[true, false, true]),
        (vec![], vec![0, 1, 2])
    );
    // Of two rows the second one has moved up when it is its turn.
    assert_eq!(
        remaining(&[true, true, false, true, true]),
        (vec![0, 3], vec![1, 2, 3])
    );
}

#[test]
fn the_first_of_a_row_is_taken_up() {
    let mut joiner = Joiner::new();
    for distance in 0..4 {
        joiner.active.push(polygon(distance));
    }
    let plan = joiner.touch_segment(&[false, true, true, true]);
    assert_eq!(
        plan.joins,
        [
            Join::Segment { base: 1 },
            Join::Polygon { base: 2, joining: 1 },
            Join::Polygon { base: 3, joining: 1 },
        ]
    );
    assert_eq!(plan.joined_polygons_to_remove, [1, 1]);
}

#[test]
fn polygons_are_removed_one_after_the_other() {
    let mut joiner = Joiner::new();
    for distance in 0..5 {
        joiner.active.push(polygon(distance));
    }
    joiner.remove_joined_polygons(&[3, 0, 2]);
    assert_eq!(distances(&joiner.active), [1, 2]);
}

/// A polygon with one active opening.
fn open_polygon(furthest_opening: u32) -> GrowablePolygon {
    let vertices = vec![
        vertex(Opening::End(furthest_opening)),
        vertex(Opening::Start(0)),
    ];
    GrowablePolygon::new(vertices, furthest_opening, false)
}

#[test]
fn touching_openings_make_touching_polygons() {
    let polygons = [
        GrowablePolygon::new(two_openings(), 9, false),
        polygon(1),
        open_polygon(2),
    ];
    let touching = [vec![false, true], vec![], vec![false]];
    assert_eq!(
        touching_polygons(&polygons, &touching),
        Ok(vec![true, false, false])
    );

    let malformed = [
        open_polygon(1),
        GrowablePolygon::new(vec![vertex(Opening::End(1))], 1, false),
        GrowablePolygon::new(vec![vertex(Opening::Start(1))], 1, false),
    ];
    let touching = [vec![true], vec![], vec![]];
    assert_eq!(
        touching_polygons(&malformed, &touching),
        Err(JoinError::UnexpectedEnd)
    );
}

#[test]
fn an_angle_is_built_from_its_segments() {
    let mut joiner = Joiner::new();
    for distance in [8, 2, 6, 4] {
        joiner.active.push(open_polygon(distance));
    }
    let segment = |touches: &[bool], grown: &[u32], distance: u32| AngleSegment {
        touching: touches.iter().map(|touches| vec![*touches]).collect(),
        grown: grown.iter().map(|distance| open_polygon(*distance)).collect(),
        polygon: open_polygon(distance),
    };
    let plans = joiner
        .build_angle(
            vec![
                segment(&[true, true, false, false], &[102, 104], 20),
                segment(&[false, false, false], &[], 30),
                segment(&[false, false, true], &[108], 40),
            ],
            vec![open_polygon(204), open_polygon(206), open_polygon(208)],
        )
        .unwrap();

    assert_eq!(plans.len(), 3);
    assert_eq!(
        plans[0].joins,
        [
            Join::Segment { base: 0 },
            Join::Polygon { base: 1, joining: 0 },
        ]
    );
    assert_eq!(plans[0].joined_polygons_to_remove, [0]);
    assert!(plans[1].joins.is_empty());
    assert!(!plans[1].is_segment_touching_anything);
    assert_eq!(plans[2].joins, [Join::Segment { base: 2 }]);
    assert!(plans[2].joined_polygons_to_remove.is_empty());
    assert_eq!(distances(&joiner.active), [204, 208, 30]);
    assert_eq!(distances(&joiner.completed), [206]);

    assert!(joiner.build_angle(vec![], vec![]).unwrap().is_empty());
    assert!(joiner.active.is_empty());
    assert_eq!(distances(&joiner.completed), [206, 30, 204, 208]);
}

#[test]
fn an_angle_can_be_malformed() {
    let mut joiner = Joiner::new();
    joiner.active.push(open_polygon(3));
    joiner
        .active
        .push(GrowablePolygon::new(vec![vertex(Opening::Start(1))], 1, false));
    let segment = AngleSegment {
        touching: vec![vec![], vec![true]],
        grown: vec![],
        polygon: polygon(7),
    };
    let built = joiner.build_angle(vec![segment], vec![]);
    assert_eq!(built.unwrap_err(), JoinError::OpeningWithoutVertex);
    assert_eq!(distances(&joiner.active), [1, 3]);
    assert!(joiner.completed.is_empty());
}

#[test]
fn polygons_become_what_is_joined() {
    let mut joiner = Joiner::new();
    for distance in 0..3 {
        joiner.active.push(polygon(distance));
    }
    joiner.active[0].is_touched = true;
    joiner.grow_polygons(&[true, false, true], vec![polygon(10), polygon(12)]);
    assert_eq!(distances(&joiner.active), [10, 1, 12]);
    joiner.downgrade_openings(vec![polygon(20), polygon(21), polygon(22)]);
    assert_eq!(distances(&joiner.active), [20, 21, 22]);
    let touched: Vec<bool> = joiner.active.iter().map(|polygon| polygon.is_touched).collect();
    assert_eq!(touched, [true, false, false]);
}

#[test]
fn untouched_polygons_are_completed() {
    let mut joiner = Joiner::new();
    for distance in 0..4 {
        joiner.active.push(polygon(distance));
    }
    joiner.touch_segment(&[true, false, false, true]);
    joiner.finish_angle(vec![polygon(7)]);
    assert_eq!(distances(&joiner.active), [0, 3, 7]);
    assert_eq!(distances(&joiner.completed), [1, 2]);
    joiner.move_all_active_polygons_to_completed();
    assert!(joiner.active.is_empty());
    assert_eq!(distances(&joiner.completed), [1, 2, 0, 3, 7]);
}

#[test]
fn two_polygons_can_change_at_once() {
    let mut joiner = Joiner::new();
    for distance in 0..3 {
        joiner.active.push(polygon(distance));
    }
    let (base, joining) = joiner.get_involved_polygons(2, Some(0));
    base.furthest_opening = 20;
    joining.unwrap().furthest_opening = 10;
    assert_eq!(distances(&joiner.active), [10, 1, 20]);
    let (base, joining) = joiner.get_involved_polygons(0, Some(1));
    base.furthest_opening = 30;
    joining.unwrap().furthest_opening = 40;
    assert_eq!(distances(&joiner.active), [30, 40, 20]);
    let (base, joining) = joiner.get_involved_polygons(1, None);
    base.furthest_opening = 50;
    assert!(joining.is_none());
    assert_eq!(distances(&joiner.active), [30, 50, 20]);
}
