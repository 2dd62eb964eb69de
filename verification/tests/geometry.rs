use total_viewsheds::chocolate_box;
use total_viewsheds::chocolate_box::{GridPoint, NOOP_DEM_ID};
use total_viewsheds::constants::{Constants, Dimensions};
use total_viewsheds::cpu_kernel::{dem_id_to_tvs_id, dem_to_pov};
use total_viewsheds::cuda::result_indexes;
use total_viewsheds::dem::{Coordinate, DemError, DEM};
use total_viewsheds::elevations::{along_band, Direction, Elevations, NODATA};
use total_viewsheds::integers;
use total_viewsheds::pre_process::{
    biggest_tvs_subgrid_options, find_biggest_total_surfaces, get_neighbourhood_id,
    saved_neighbourhood, tvs_id_to_dem_id, SubgridError,
};
use total_viewsheds::rotation::{fill_line_elevations, generate_rotation, lines};
use total_viewsheds::rotator::{Quadrant, Rotator};
use total_viewsheds::segments::Segment;
use total_viewsheds::single::Single;
use total_viewsheds::viewshed::{
    check_computable, lookup, parse_polar_segments, point_of_view, Section, ViewshedError,
};

const DEM3: [i16; 9] = [
    0, 1, 2, //
    3, 4, 5, //
    6, 7, 8, //
];

const DEM6: [i16; 36] = [
    0, 1, 2, 3, 4, 5, //
    6, 7, 8, 9, 10, 11, //
    12, 13, 14, 15, 16, 17, //
    18, 19, 20, 21, 22, 23, //
    24, 25, 26, 27, 28, 29, //
    30, 31, 32, 33, 34, 35, //
];

fn shear(width: i64, factor: f64) -> Vec<i64> {
    let centre = (width - 1) as f64 / 2.0;
    (-2 * width - 2..3 * width + 2)
        .map(|index| (factor * (index as f64 - centre)).round() as i64)
        .collect()
}

fn rotator(angle: u32, width: i64) -> Rotator {
    let (quadrant, remainder) = Rotator::split_angle(angle, 1);
    let theta = f64::from(remainder).to_radians();
    let horizontal = shear(width, -(theta / 2.0).tan());
    let vertical = shear(width, theta.sin());
    Rotator::new(quadrant, width, horizontal, vertical).unwrap()
}

fn rotate(angle: u32) -> Vec<i16> {
    let rotator = rotator(angle, 6);
    let mut rotated = Vec::new();
    for y in 0..6 {
        for x in 0..6 {
            let (x_rotated, y_rotated) = rotator.rotate(x, y);
            rotated.push(DEM6[(y_rotated * 6 + x_rotated) as usize]);
        }
    }
    rotated
}

#[test]
fn remainder_always_less_than_90() {
    for subdivisions in [1, 4, 100] {
        for angle in 0..360 * subdivisions {
            let (quadrant, remainder) = Rotator::split_angle(angle, subdivisions);
            assert!(remainder < 90 * subdivisions);
            assert_eq!(
                quadrant.upper_limit() * subdivisions + remainder,
                Rotator::invert_angle(angle, subdivisions)
            );
        }
    }
}

#[test]
fn quadrants() {
    assert_eq!(Quadrant::from(0), Quadrant::BottomRight);
    assert_eq!(Quadrant::from(1), Quadrant::TopRight);
    assert_eq!(Quadrant::from(2), Quadrant::TopLeft);
    assert_eq!(Quadrant::from(3), Quadrant::BottomLeft);
    assert_eq!(Quadrant::from(4), Quadrant::BottomRight);
    assert_eq!(Quadrant::TopLeft.upper_limit(), 180);
}

#[test]
fn rotate_dem_0() {
    assert_eq!(rotate(0), DEM6);
}

#[test]
fn rotate_dem_45() {
    let expected = [
        18, 12, 7, 1, 2, 2, //
        18, 12, 13, 8, 9, 3, //
        24, 19, 20, 14, 10, 4, //
        31, 25, 21, 15, 16, 11, //
        32, 26, 27, 22, 23, 17, //
        33, 33, 34, 28, 23, 17, //
    ];
    assert_eq!(rotate(45), expected);
}

#[test]
fn rotate_dem_180() {
    let expected: Vec<i16> = DEM6.iter().rev().copied().collect();
    assert_eq!(rotate(180), expected);
}

#[test]
fn rotate_dem_225() {
    let expected = [
        17, 23, 28, 34, 33, 33, //
        17, 23, 22, 27, 26, 32, //
        11, 16, 15, 21, 25, 31, //
        4, 10, 14, 20, 19, 24, //
        3, 9, 8, 13, 12, 18, //
        2, 2, 1, 7, 12, 18, //
    ];
    assert_eq!(rotate(225), expected);
}

#[test]
fn rotate_dem_315() {
    let expected = [
        2, 3, 4, 11, 17, 17, //
        2, 9, 10, 16, 23, 23, //
        1, 8, 14, 15, 22, 28, //
        7, 13, 20, 21, 27, 34, //
        12, 12, 19, 25, 26, 33, //
        18, 18, 24, 31, 32, 33, //
    ];
    assert_eq!(rotate(315), expected);
}

#[test]
fn rotate_dem_359() {
    assert_eq!(rotate(359), DEM6);
}

#[test]
fn quarter_turns_move_every_point_once() {
    for angle in [0, 90, 180, 270] {
        let mut rotated = rotate(angle);
        rotated.sort();
        assert_eq!(rotated, DEM6);
    }
}

#[test]
fn a_rotator_needs_shears_that_fit() {
    let flat = vec![0; 34];
    assert!(Rotator::new(Quadrant::TopLeft, 6, flat.clone(), flat.clone()).is_some());
    assert!(Rotator::new(Quadrant::TopLeft, 6, flat.clone(), vec![0; 33]).is_none());
    assert!(Rotator::new(Quadrant::TopLeft, 0, vec![0; 4], vec![0; 4]).is_none());
    let mut steep = flat.clone();
    steep[16] = 9;
    assert!(Rotator::new(Quadrant::TopLeft, 6, flat, steep).is_none());
}

fn rotated_lines(angle: u32) -> Vec<i16> {
    lines(&DEM6, 2, &rotator(angle, 6))
        .into_iter()
        .flat_map(|line| line.elevations)
        .collect()
}

#[test]
fn rotate_by_0() {
    assert_eq!(rotated_lines(0), [14, 15, 16, 17, 20, 21, 22, 23]);
}

#[test]
fn rotate_by_45() {
    assert_eq!(rotated_lines(45), [20, 14, 10, 4, 21, 15, 16, 11]);
}

#[test]
fn rotate_by_90() {
    assert_eq!(rotated_lines(90), [20, 14, 8, 2, 21, 15, 9, 3]);
}

#[test]
fn lines_know_where_their_points_are_from() {
    for line in lines(&DEM6, 2, &rotator(33, 6)) {
        for (elevation, index) in line.elevations.iter().zip(&line.indexes) {
            assert_eq!(DEM6[*index as usize], *elevation);
        }
    }
}

#[test]
fn gaps_are_filled() {
    let n = i16::MIN;
    let mut line = [n, n, 3, n, n, -4, n];
    fill_line_elevations(&mut line);
    assert_eq!(line, [0, 0, 3, 3, 3, -4, -4]);
    fill_line_elevations(&mut line);
    assert_eq!(line, [0, 0, 3, 3, 3, -4, -4]);
}

#[test]
fn rotations_are_clamped() {
    let (indexes, elevations) = generate_rotation(&DEM3, &[(0, 0), (1, 2), (-5, 9)], 3);
    assert_eq!(indexes, [0, 5, 2]);
    assert_eq!(elevations, [0, 5, 2]);
}

#[test]
fn rotations_are_mapped_to_results() {
    // One line of a DEM of 6 by 6 points: only the middle two have a result.
    assert_eq!(
        result_indexes(&[0, 1, 14, 2, 3, 4, 20, 21, 15, 21, 27, 33], 2),
        [0, -1, 1, 3]
    );
}

#[test]
fn computable_points_are_in_a_circle() {
    assert_eq!(dem_id_to_tvs_id(5 * 12 + 5, 12, 4), 5);
    assert_eq!(dem_id_to_tvs_id(6 * 12 + 6, 12, 4), 10);
    assert_eq!(dem_id_to_tvs_id(4 * 12 + 4, 12, 4), -1);
    assert_eq!(dem_id_to_tvs_id(4 * 12 + 5, 12, 4), -1);
    assert_eq!(dem_id_to_tvs_id(0, 12, 4), -1);
    assert_eq!(dem_id_to_tvs_id(-1, 12, 4), -1);
    assert_eq!(dem_id_to_tvs_id(i64::MIN, 12, 4), -1);
    assert_eq!(dem_to_pov(4 * 12 + 5, 12, 4), 1);
    assert_eq!(dem_to_pov(0, 12, 4), -20);
}

#[test]
fn dems_have_a_sub_grid() {
    let dem = DEM::new(12, 4).unwrap();
    assert_eq!(dem.tvs_width, 4);
    assert_eq!(dem.size, 144);
    assert_eq!(dem.computable_points_count, 16);
    assert!(dem.elevations.is_empty());
    assert_eq!(dem.convert_dem_id_to_coord(30), Coordinate { x: 6, y: 2 });
    assert_eq!(dem.dem_coord_to_id(Coordinate { x: 6, y: 2 }), 30);
    assert_eq!(dem.dem_coord_to_id(Coordinate { x: -6, y: 0 }), 0);
    assert!(dem.is_point_computable(4 * 12 + 4));
    assert!(dem.is_point_computable(7 * 12 + 7));
    assert!(!dem.is_point_computable(7 * 12 + 8));
    assert!(!dem.is_point_computable(3 * 12 + 4));
    assert_eq!(dem.pov_id_to_tvs_id(6 * 12 + 5), 9);
}

#[test]
fn some_dems_are_refused() {
    assert!(matches!(
        DEM::new(12, 7),
        Err(DemError::LineOfSightTooLong(6))
    ));
    assert!(matches!(
        DEM::new(13, 4),
        Err(DemError::NotDivisibleByThree(13))
    ));
}

#[test]
fn tvs_ids_go_both_ways() {
    let dem = DEM::new(60, 20).unwrap();
    for tvs_id in 0..400 {
        let dem_id = tvs_id_to_dem_id(tvs_id, 20);
        assert_eq!(dem.pov_id_to_tvs_id(dem_id as u64), tvs_id as u64);
    }
}

#[test]
fn tvs_neighbourhood_id() {
    let run = |index: i64| -> i64 {
        let global_width = 20;
        let neighbourhood_size = 16;
        get_neighbourhood_id(index, global_width, neighbourhood_size)
    };

    assert_eq!(run(0), 0);
    assert_eq!(run(3), 0);
    assert_eq!(run(60), 0);
    assert_eq!(run(63), 0);

    assert_eq!(run(4), 1);
    assert_eq!(run(44), 1);

    assert_eq!(run(19), 4);
    assert_eq!(run(79), 4);

    assert_eq!(run(80), 5);
    assert_eq!(run(83), 5);

    assert_eq!(run(383), 20);

    assert_eq!(run(399), 24);
    assert_eq!(run(400), 25);
}

#[test]
fn biggest_total_surfaces_subgrid() {
    let data: Vec<Single> = (0..400).map(|i| Single((i as f32).to_bits())).collect();
    let hashmap = find_biggest_total_surfaces(&data, 16);

    // Top left
    assert!(!hashmap.contains_key(&79));
    assert_eq!(hashmap[&80], 1403);
    assert_eq!(hashmap[&81], 1407);

    // Bottom right
    assert_eq!(hashmap[&143], 2375);
    assert_eq!(hashmap[&144], 2379);
    assert!(!hashmap.contains_key(&145));

    assert_eq!(saved_neighbourhood(&hashmap, 1403, 60, 16), Some(80));
    assert_eq!(saved_neighbourhood(&hashmap, 1402, 60, 16), None);
    assert_eq!(saved_neighbourhood(&hashmap, 0, 60, 16), None);
}

#[test]
fn the_first_of_equals_is_the_biggest() {
    let points: Vec<Single> = [1.0f32, 2.0, 2.0, 0.0]
        .iter()
        .map(|point| Single(point.to_bits()))
        .collect();
    let biggest = find_biggest_total_surfaces(&points, 36);
    assert_eq!(biggest.len(), 1);
    assert_eq!(biggest[&0], tvs_id_to_dem_id(1, 2));
}

#[test]
fn options_for_the_biggest_viewsheds() {
    let path = Some("tvs.tiff".to_owned());
    assert_eq!(
        biggest_tvs_subgrid_options(Some(16), path.clone()),
        Ok((16, "tvs.tiff".to_owned()))
    );
    let no_size = biggest_tvs_subgrid_options(None, path).unwrap_err();
    assert_eq!(no_size, SubgridError::NoNeighbourhoodSize);
    assert_eq!(
        no_size.message(),
        "Must specify --only-save-biggest-viewsheds"
    );
    let no_source = biggest_tvs_subgrid_options(Some(16), None).unwrap_err();
    assert_eq!(no_source, SubgridError::NoSource);
    assert_eq!(no_source.message(), "Must specify --tvs-source-path");
}

#[test]
fn whole_numbers() {
    assert_eq!(integers::div_euclid(-7, 4), -2);
    assert_eq!(integers::rem_euclid(-7, 4), 1);
    assert_eq!(integers::isqrt(0), 0);
    assert_eq!(integers::isqrt(15), 3);
    assert_eq!(integers::isqrt(16), 4);
    assert_eq!(integers::isqrt(i64::MAX), 3_037_000_499);
    assert_eq!(integers::decimal(0), "0");
    assert_eq!(integers::decimal(4_294_967_295), "4294967295");
}

fn rotate_coordinate(point: GridPoint, width: u32, angle: f32) -> Option<GridPoint> {
    let (sine, cosine) = (-(angle - 0.0001).to_radians().sin(), (angle - 0.0001).to_radians().cos());
    let offset = (width as f32 - 1.0) / 2.0;
    let x = point.x as f32 - offset;
    let y = point.y as f32 - offset;
    if x.hypot(y) > offset {
        return None;
    }
    Some(GridPoint {
        x: (x.mul_add(cosine, -(y * sine)) + offset).round() as u32,
        y: (x.mul_add(sine, y * cosine) + offset).round() as u32,
    })
}

fn chocolate(dem: &[i16], angle: f32) -> Vec<i16> {
    let dem_width = dem.len().isqrt() as u32;
    let tvs_width = dem_width / 3;
    let size = chocolate_box::size(dem_width, tvs_width);
    let mut rotated = vec![0; size as usize];
    for id in 0..size {
        let rotator = chocolate_box::Rotator::new(id, dem_width, tvs_width);
        let target = rotate_coordinate(rotator.chocolate_id_to_coord(), dem_width, angle);
        rotator.anti_rotate_value_nearest_neighbour(target, dem, &mut rotated);
    }
    rotated
}

#[test]
fn rotate_by_0_dem3() {
    assert_eq!(chocolate(&DEM3, 0.0), [3, 4, 5]);
}

#[test]
fn rotate_by_0_dem6() {
    let n = NODATA;
    assert_eq!(
        chocolate(&DEM6, 0.0),
        [
            n, 13, 14, 15, 16, n, //
            n, 19, 20, 21, 22, n,
        ]
    );
}

#[test]
fn rotate_by_45_dem3() {
    assert_eq!(chocolate(&DEM3, 45.0), [6, 4, 2]);
}

#[test]
fn rotate_by_45_dem6() {
    let n = NODATA;
    assert_eq!(
        chocolate(&DEM6, 45.0001),
        [
            n, 19, 20, 15, 9, n, //
            n, 26, 21, 21, 16, n,
        ]
    );
}

#[test]
fn rotate_by_90_dem3() {
    assert_eq!(chocolate(&DEM3, 90.0), [7, 4, 1]);
}

#[test]
fn rotate_by_135_dem3() {
    assert_eq!(chocolate(&DEM3, 135.0), [8, 4, 0]);
}

#[test]
fn places_in_the_chocolate_box() {
    assert_eq!(chocolate_box::size(12, 4), 48);
    assert_eq!(chocolate_box::offset(12, 4), 48);
    assert_eq!(chocolate_box::offset(9, 3), 27);
    let rotator = chocolate_box::Rotator::new(7, 12, 4);
    let place = rotator.chocolate_id_to_coord();
    assert_eq!((place.x, place.y), (7, 4));
    assert_eq!(rotator.coord_to_index(place), 55);
    let back = rotator.index_to_coord(55);
    assert_eq!((back.x, back.y), (7, 4));
    assert_eq!(rotator.rotate_coordinate_to_index(None), NOOP_DEM_ID);
    assert_eq!(rotator.rotate_coordinate_to_index(Some(place)), 55);

    let constants = Constants {
        total_bands: 32,
        max_los_as_points: 4,
        dem_width: 12,
        tvs_width: 4,
        reserved_rings_per_band: 5,
        process: 0,
        dimensions: Dimensions { x: 0, y: 0, z: 0, w: 0 },
    };
    assert_eq!(chocolate_box::chocolate_id_from_tvs_id(0, &constants), 4);
    assert_eq!(chocolate_box::chocolate_id_from_tvs_id(5, &constants), 17);
}

#[test]
fn elevations_along_a_band() {
    let n = NODATA;
    let elevations = [5, n, 7, 8, n, n, 2];
    assert_eq!(along_band(&elevations, Direction::Forward, 2, 4), [7, 8, 8, 8, 2]);
    assert_eq!(along_band(&elevations, Direction::Backward, 3, 3), [8, 7, 7, 5]);
    assert_eq!(along_band(&elevations, Direction::Forward, 4, 1), [0, 0]);

    let mut fetcher = Elevations::new(&elevations, Direction::Backward, 2);
    assert_eq!(fetcher.next(&elevations), 7);
    assert_eq!(fetcher.next(&elevations), 5);
}

#[test]
fn viewsheds_are_looked_up_by_point_or_neighbourhood() {
    assert_eq!(lookup(66, 12, 0).field_and_value(), ("dem_id", 66));
    assert_eq!(
        lookup(66, 12, 16).field_and_value(),
        ("neighbourhood_id", 4)
    );
    let requested = Coordinate { x: 5, y: 5 };
    assert_eq!(point_of_view(requested, 78, 12, 0), requested);
    assert_eq!(
        point_of_view(requested, 78, 12, 16),
        Coordinate { x: 6, y: 6 }
    );
}

#[test]
fn viewsheds_need_a_computable_point() {
    let dem = DEM::new(12, 4).unwrap();
    assert_eq!(check_computable(&dem, Coordinate { x: 5, y: 6 }), Ok(77));
    let outside = Coordinate { x: 3, y: 6 };
    assert_eq!(
        check_computable(&dem, outside),
        Err(ViewshedError::NotCalculable(outside))
    );
}

#[test]
fn sections_of_segments() {
    let data = [
        vec![Segment::new(0, 2), Segment::new(5, 1)],
        vec![],
        vec![Segment::new(3, 4)],
    ];
    let section = |angle: usize, opening: u32, closing: u32| Section {
        angle,
        opening,
        closing,
    };
    assert_eq!(
        parse_polar_segments(&data),
        [section(0, 0, 2), section(0, 5, 6), section(2, 3, 7)]
    );
}
