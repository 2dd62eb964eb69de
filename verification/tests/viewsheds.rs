//! Whole computations, from a small DEM to surfaces, longest lines and viewsheds.

use geo::orient::{Direction, Orient};
use geo::unary_union;
use total_viewsheds::ascii::{rasterise_multi_polygon_geo, RasterPolygon};
use total_viewsheds::bresenham::RasterCoord;
use total_viewsheds::cpu_kernel::{ahead, kernel, OutputData, SightLine};
use total_viewsheds::db::{rows_to_segments, Row};
use total_viewsheds::dem::{Coordinate, DEM};
use total_viewsheds::pre_process::{find_biggest_total_surfaces, rows_to_save};
use total_viewsheds::rotation::{lines, Line};
use total_viewsheds::rotator::Rotator;
use total_viewsheds::single::Single;
use total_viewsheds::viewshed::{check_computable, lookup, parse_polar_segments, point_of_view};
use total_viewsheds::worker::Worker;
use total_viewsheds::workers::{angles, blank_output, compilation_worker};

const EARTH_DIAMETER: f32 = 12_742_000.0;
const TAN_ONE_RADIAN: f32 = 0.017_453_3;

struct Setup {
    observer_height: f32,
    refraction: f32,
    scale: f32,
    subdivisions: u8,
    neighbourhood_size: u32,
}

fn default_setup() -> Setup {
    Setup {
        observer_height: 0.8,
        refraction: 0.13,
        scale: 1.0,
        subdivisions: 1,
        neighbourhood_size: 0,
    }
}

fn bigger_dem() -> Vec<i16> {
    let x = 15;
    let n = i16::MIN;
    vec![
        0, 0, 0, 0, 0, 0, 0, 0, 0, 0, 0, 1, //
        0, 1, 1, 1, 1, 1, 1, 1, 0, 1, 0, 0, //
        0, 1, 3, 3, 2, 2, 2, 3, 4, 3, 0, 0, //
        0, 1, 3, 4, 3, 3, 3, 3, 3, 2, 1, 0, //
        0, 1, 3, 4, 5, 5, 5, 4, 3, 2, 1, 0, //
        0, 1, 3, 4, 4, 0, 6, 5, 4, 2, 1, 0, //
        0, 1, 1, 2, 5, 9, x, 7, 5, 2, 1, 0, //
        0, 1, 1, 4, 4, 4, 4, 6, 3, 2, 1, 0, //
        0, 0, 3, 4, 4, 4, 5, 4, n, n, n, n, //
        0, 3, 3, 4, 3, 2, 3, 3, n, n, n, n, //
        0, 0, 3, 4, 2, 2, 1, 2, n, n, n, n, //
        3, 0, 2, 3, 1, 0, 1, 0, n, n, n, n, //
    ]
}

fn shear(width: i64, factor: f64) -> Vec<i64> {
    let centre = (width - 1) as f64 / 2.0;
    (-2 * width - 2..3 * width + 2)
        .map(|index| (factor * (index as f64 - centre)).round() as i64)
        .collect()
}

fn rotator(angle: u32, subdivisions: u32, width: i64) -> Rotator {
    let (quadrant, remainder) = Rotator::split_angle(angle, subdivisions);
    let theta = (f64::from(remainder) / f64::from(subdivisions)).to_radians();
    let horizontal = shear(width, -(theta / 2.0).tan());
    let vertical = shear(width, theta.sin());
    Rotator::new(quadrant, width, horizontal, vertical).unwrap()
}

fn sight_lines(elevations: &[i16], max_los: usize, angle: u16, setup: &Setup) -> Vec<SightLine> {
    let rotator = rotator(
        u32::from(angle),
        u32::from(setup.subdivisions),
        3 * max_los as i64,
    );
    let mut sight_lines = Vec::new();
    for line in lines(elevations, max_los, &rotator) {
        let mut all_angles = Vec::new();
        for pov in 0..max_los {
            let height = f32::from(line.elevations[pov]) + setup.observer_height;
            let keys: Vec<i32> = ahead(&line, pov, max_los)
                .iter()
                .zip(1usize..)
                .map(|(elevation, step)| {
                    let distance = step as f32 * setup.scale;
                    let adjustment = (distance * distance * (setup.refraction - 1.0)) / EARTH_DIAMETER;
                    let gradient = ((f32::from(*elevation) - height) + adjustment) / distance;
                    Single(gradient.to_bits()).key()
                })
                .collect();
            all_angles.push(keys);
        }
        sight_lines.push(SightLine {
            line,
            prunable: vec![false; max_los],
            angles: all_angles,
        });
    }
    sight_lines
}

fn run_angle(elevations: &[i16], angle: u16, setup: &Setup, worker: &mut Worker, output: &mut OutputData) {
    let max_los = elevations.len().isqrt() / 3;
    let metres: Vec<u32> = (0..=max_los)
        .map(|points| (points as f32 * setup.scale) as u32)
        .collect();
    let sight_lines = sight_lines(elevations, max_los, angle, setup);
    kernel(worker, &sight_lines, output, angle, &metres, true, max_los);
}

fn compute(elevations: &[i16], setup: &Setup) -> (OutputData, Vec<Row>) {
    let max_los = elevations.len().isqrt() / 3;
    let mut worker = Worker::new("viewsheds.db".to_owned(), true);
    let mut output = blank_output(max_los);
    for angle in angles(setup.subdivisions) {
        run_angle(elevations, angle, setup, &mut worker, &mut output);
    }
    let compiled = compilation_worker(&[output], max_los);
    (compiled, worker.take_rows())
}

fn assert_surfaces(points: &[u64], expected: [f32; 16], scale: f32) {
    assert_eq!(points.len(), expected.len());
    for (point, surface) in points.iter().zip(expected) {
        let computed = *point as f32 * TAN_ONE_RADIAN * scale;
        let difference = (computed - surface).abs();
        assert!(
            difference <= surface * 0.000_01,
            "{computed} is not {surface}"
        );
    }
}

#[test]
fn run_total_surfaces() {
    let (output, _) = compute(&bigger_dem(), &default_setup());
    assert_eq!(
        output.surfaces,
        [0, 0, 0, 0, 0, 360, 1210, 0, 0, 2745, 3600, 0, 0, 0, 0, 0]
    );
    let expected = [
        0.0, 0.0, 0.0, 0.0, //
        0.0, 6.283163, 21.118624, 0.0, //
        0.0, 47.909348, 62.832096, 0.0, //
        0.0, 0.0, 0.0, 0.0, //
    ];
    assert_surfaces(&output.surfaces, expected, 1.0);
}

#[test]
fn longest_lines() {
    let (output, _) = compute(&bigger_dem(), &default_setup());
    let distances: Vec<u32> = output.longest.iter().map(|line| line.distance()).collect();
    assert_eq!(
        distances,
        [0, 0, 0, 0, 0, 1, 4, 0, 0, 4, 4, 0, 0, 0, 0, 0]
    );
    let directions: Vec<u16> = output.longest.iter().map(|line| line.angle()).collect();
    assert_eq!(
        directions,
        [0, 0, 0, 0, 0, 0, 29, 0, 0, 1, 0, 0, 0, 0, 0, 0]
    );
}

#[test]
fn refraction_affects_visibility() {
    let none = Setup {
        refraction: 0.0,
        ..default_setup()
    };
    let (output, _) = compute(&bigger_dem(), &none);
    assert_eq!(
        output.surfaces,
        [0, 0, 0, 0, 0, 360, 1210, 0, 0, 2745, 3600, 0, 0, 0, 0, 0]
    );

    let extreme = Setup {
        refraction: -EARTH_DIAMETER,
        ..default_setup()
    };
    let (output, _) = compute(&bigger_dem(), &extreme);
    let expected = [
        0.0, 0.0, 0.0, 0.0, //
        0.0, 6.283163, 9.424768, 0.0, //
        0.0, 14.468756, 38.083088, 0.0, //
        0.0, 0.0, 0.0, 0.0, //
    ];
    assert_surfaces(&output.surfaces, expected, 1.0);
}

#[test]
fn scale_affects_visibility() {
    let small = Setup {
        scale: 0.01,
        ..default_setup()
    };
    let (output, _) = compute(&bigger_dem(), &small);
    let expected = [
        0.0, 0.0, 0.0, 0.0, //
        0.0, 0.06283202, 0.21118537, 0.0, //
        0.0, 0.4790932, 0.6283214, 0.0, //
        0.0, 0.0, 0.0, 0.0, //
    ];
    assert_surfaces(&output.surfaces, expected, 0.01);

    let big = Setup {
        scale: 100.0,
        ..default_setup()
    };
    let (output, _) = compute(&bigger_dem(), &big);
    let expected = [
        0.0, 0.0, 0.0, 0.0, //
        0.0, 628.317, 2111.8528, 0.0, //
        0.0, 4790.9106, 6283.1714, 0.0, //
        0.0, 0.0, 0.0, 0.0, //
    ];
    assert_surfaces(&output.surfaces, expected, 100.0);
}

#[test]
fn kernel_total_surfaces() {
    let dem = bigger_dem();
    let mut worker = Worker::new_noop();

    // Lines along columns.
    let mut forward = blank_output(4);
    run_angle(&dem, 90, &default_setup(), &mut worker, &mut forward);
    let mut backward = blank_output(4);
    run_angle(&dem, 270, &default_setup(), &mut worker, &mut backward);

    let result: Vec<u64> = forward
        .surfaces
        .iter()
        .zip(backward.surfaces.iter())
        .map(|(left, right)| left + right)
        .collect();
    assert_eq!(result, [0, 0, 0, 0, 0, 2, 9, 0, 0, 20, 20, 0, 0, 0, 0, 0]);
    let expected = [
        0.0, 0.0, 0.0, 0.0, //
        0.0, 0.0349066, 0.1570797, 0.0, //
        0.0, 0.34906602, 0.34906602, 0.0, //
        0.0, 0.0, 0.0, 0.0, //
    ];
    assert_surfaces(&result, expected, 1.0);
}

#[test]
fn surfaces_of_opposite_angles() {
    let dem = bigger_dem();
    let mut worker = Worker::new_noop();

    let mut forward = blank_output(4);
    run_angle(&dem, 0, &default_setup(), &mut worker, &mut forward);
    assert_eq!(
        forward.surfaces,
        [0, 0, 0, 0, 0, 1, 3, 0, 0, 1, 10, 0, 0, 0, 0, 0]
    );

    let mut backward = blank_output(4);
    run_angle(&dem, 180, &default_setup(), &mut worker, &mut backward);
    assert_eq!(
        backward.surfaces,
        [0, 0, 0, 0, 0, 1, 6, 0, 0, 10, 10, 0, 0, 0, 0, 0]
    );
    assert!(worker.take_rows().is_empty());
}

fn rotate_by(point: (f64, f64), degrees: f64) -> (f64, f64) {
    let (sine, cosine) = degrees.to_radians().sin_cos();
    (
        point.0 * cosine - point.1 * sine,
        point.0 * sine + point.1 * cosine,
    )
}

/// The viewshed of a point, drawn over the whole DEM.
fn make_viewshed(elevations: &[i16], requested: Coordinate, setup: &Setup, rows: &[Row]) -> Vec<String> {
    let width = elevations.len().isqrt() as u32;
    let dem = DEM::new(width, width / 3).unwrap();
    let dem_id = dem.dem_coord_to_id(requested);
    let id = lookup(dem_id, width, setup.neighbourhood_size);
    let (field, value) = id.field_and_value();
    let mut found: Vec<&Row> = rows
        .iter()
        .filter(|row| match field {
            "dem_id" => row.dem_id == value,
            _ => row.neighbourhood_id == Some(value),
        })
        .collect();
    found.sort_by_key(|row| row.angle_id);
    let blobs: Vec<Vec<u8>> = found.iter().map(|row| row.visible_segments.clone()).collect();
    let segments = rows_to_segments(&blobs).unwrap();
    let loaded_dem_id = id.dem_id().unwrap_or_else(|| found[0].dem_id);
    let observer = point_of_view(requested, loaded_dem_id, width, setup.neighbourhood_size);
    check_computable(&dem, observer).unwrap();

    let spread = 0.5001 / f64::from(setup.subdivisions);
    let mut polygons = Vec::new();
    for section in parse_polar_segments(&segments) {
        let degrees = section.angle as f64 / f64::from(setup.subdivisions);
        let opening = rotate_by((f64::from(section.opening), 0.0), degrees);
        let closing = rotate_by((f64::from(section.closing), 0.0), degrees);
        let mut corners = vec![rotate_by(opening, spread)];
        if section.opening > 0 {
            corners.push(rotate_by(opening, -spread));
        }
        corners.push(rotate_by(closing, -spread));
        corners.push(rotate_by(closing, spread));
        corners.push(corners[0]);
        let ring: Vec<geo::Coord<f64>> = corners
            .iter()
            .map(|corner| geo::Coord {
                x: corner.0,
                y: corner.1,
            })
            .collect();
        let polygon = geo::Polygon::new(geo::LineString(ring), vec![]);
        polygons.push(polygon.orient(Direction::Default));
    }
    let viewshed = unary_union(&polygons);

    let rasterise = |ring: &geo::LineString<f64>| -> Vec<RasterCoord> {
        ring.0
            .iter()
            .map(|coord| RasterCoord {
                x: ((observer.x as f64 + coord.x) * 2.0).round() as i32,
                y: ((observer.y as f64 - coord.y) * 2.0).round() as i32,
            })
            .collect()
    };
    let raster_polygons: Vec<RasterPolygon> = viewshed
        .0
        .iter()
        .map(|polygon| RasterPolygon {
            exterior: rasterise(polygon.exterior()),
            interiors: polygon.interiors().iter().map(rasterise).collect(),
        })
        .collect();
    rasterise_multi_polygon_geo(&raster_polygons, width, 2)
}

fn assert_rasterised(actual: &[String], expected: &[&str]) {
    assert!(
        actual == expected,
        "Viewsheds do not match:\n{}\n\n{}",
        actual.join("\n"),
        expected.join("\n")
    );
}

fn assert_viewshed(x: i64, y: i64, setup: &Setup, expected: &[&str]) {
    let elevations = bigger_dem();
    let (_, rows) = compute(&elevations, setup);
    let viewshed = make_viewshed(&elevations, Coordinate { x, y }, setup, &rows);
    assert_rasterised(&viewshed, expected);
}

const SUMMIT_VIEWSHED: [&str; 12] = [
    "████████████████████████",
    "████████████████████████",
    "███████▀▀ ▄▄▄▄▄ ▀▀██████",
    "█████▀ ▄█████████▄ ▀████",
    "████▀ █████████████ ▀███",
    "████ ███████████████ ███",
    "████ ███████████████ ███",
    "████ ▀█████████████▀ ███",
    "█████ ▀███████████▀ ████",
    "██████▄ ▀▀█████▀▀ ▄█████",
    "█████████▄▄▄▄▄▄▄████████",
    "████████████████████████",
];

const PACMAN_VIEWSHED: [&str; 12] = [
    "████████████████████████",
    "████████████████████████",
    "█████▀▀ ▄▄▄▄▄ ▀▀████████",
    "███▀ ▄█████████▄ ▀██████",
    "██▀ █████████████ ▀█████",
    "██ ███████████████ █████",
    "██ ████████▀ ▄▄▄▄▄▄█████",
    "██ ▀█▀▄ ██ ▄████████████",
    "███ ▀▄▄███ █████████████",
    "████▄ ▀▀██ █████████████",
    "███████▄▄▄▄█████████████",
    "████████████████████████",
];

#[test]
fn viewshed_viewshed_in_hole() {
    let expected = [
        "████████████████████████",
        "████████████████████████",
        "████████████████████████",
        "████████████████████████",
        "████████▀ ▄ ▀███████████",
        "████████ ▀█▀ ███████████",
        "█████████▄▄▄████████████",
        "████████████████████████",
        "████████████████████████",
        "████████████████████████",
        "████████████████████████",
        "████████████████████████",
    ];
    assert_viewshed(5, 5, &default_setup(), &expected);
}

#[test]
fn viewshed_on_summit() {
    assert_viewshed(6, 6, &default_setup(), &SUMMIT_VIEWSHED);
}

#[test]
fn viewshed_on_summit_by_coord() {
    assert_viewshed(6, 6, &default_setup(), &SUMMIT_VIEWSHED);
}

#[test]
fn viewshed_on_summit_with_high_angle_count() {
    let setup = Setup {
        subdivisions: 4,
        ..default_setup()
    };
    assert_viewshed(5, 6, &setup, &PACMAN_VIEWSHED);
}

#[test]
fn viewshed_viewshed_near_summit() {
    assert_viewshed(5, 6, &default_setup(), &PACMAN_VIEWSHED);
}

#[test]
fn viewshed_viewshed_in_hole_tall_observer() {
    let setup = Setup {
        observer_height: 20.0,
        ..default_setup()
    };
    let expected = [
        "████████████████████████",
        "█████▀▀ ▄▄▄▄▄ ▀▀████████",
        "███▀ ▄█████████▄ ▀██████",
        "██▀ █████████████ ▀█████",
        "██ ███████████████ █████",
        "██ ███████████████ █████",
        "██ ▀█████████████▀ █████",
        "███ ▀███████████▀ ██████",
        "████▄ ▀▀█████▀▀ ▄███████",
        "███████▄▄▄▄▄▄▄██████████",
        "████████████████████████",
        "████████████████████████",
    ];
    assert_viewshed(5, 5, &setup, &expected);
}

#[test]
fn viewshed_on_summit_by_neighbourhood() {
    let neighbourhood_size = 16;
    let elevations = bigger_dem();
    let setup = Setup {
        neighbourhood_size,
        ..default_setup()
    };

    let (output, rows) = compute(&elevations, &setup);
    let surfaces: Vec<Single> = output
        .surfaces
        .iter()
        .map(|points| Single((*points as f32 * TAN_ONE_RADIAN).to_bits()))
        .collect();
    let viewsheds_to_save = find_biggest_total_surfaces(&surfaces, i64::from(neighbourhood_size));
    assert_eq!(viewsheds_to_save[&4], 78);

    let count = rows.len();
    let saved = rows_to_save(rows, &viewsheds_to_save, 12, i64::from(neighbourhood_size));
    assert!(!saved.is_empty() && saved.len() < count);
    assert!(saved.iter().all(|row| row.neighbourhood_id == Some(4)));
    for (x, y) in [(5, 5), (6, 6), (7, 7)] {
        let viewshed = make_viewshed(&elevations, Coordinate { x, y }, &setup, &saved);
        assert_rasterised(&viewshed, &SUMMIT_VIEWSHED);
    }
}

#[test]
fn elevations_ahead_are_the_next_ones() {
    let line = Line {
        elevations: vec![10, 20, 30, 40, 50, 60],
        indexes: vec![0, 1, 2, 3, 4, 5],
    };
    assert_eq!(ahead(&line, 0, 3), [20, 30, 40]);
    assert_eq!(ahead(&line, 2, 3), [40, 50, 60]);
    assert!(ahead(&line, 5, 0).is_empty());
}
