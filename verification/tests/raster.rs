use total_viewsheds::ascii::{rasterise_multi_polygon_geo, RasterPolygon};
use total_viewsheds::bresenham::{Bresenham, RasterCoord};

#[test]
fn positive_line() {
    let line: Vec<RasterCoord> =
        Bresenham::new(RasterCoord { x: 0, y: 0 }, RasterCoord { x: 3, y: 3 }).collect();
    assert_eq!(
        line.iter()
            .map(|coord| (coord.x, coord.y))
            .collect::<Vec<(i32, i32)>>(),
        vec![(0, 0), (1, 1), (2, 2), (3, 3)]
    );
}

#[test]
fn negative_line() {
    let line: Vec<RasterCoord> =
        Bresenham::new(RasterCoord { x: -3, y: -3 }, RasterCoord { x: 1, y: 1 }).collect();
    assert_eq!(
        line.iter()
            .map(|coord| (coord.x, coord.y))
            .collect::<Vec<(i32, i32)>>(),
        vec![(-3, -3), (-2, -2), (-1, -1), (0, 0), (1, 1)]
    );
}

#[test]
fn lines_of_every_slope() {
    let points = |from: (i32, i32), to: (i32, i32)| -> Vec<(i32, i32)> {
        Bresenham::new(RasterCoord::from(from), RasterCoord::from(to))
            .collect()
            .iter()
            .map(|coord| (coord.x, coord.y))
            .collect()
    };
    assert_eq!(points((2, 2), (2, 2)), [(2, 2)]);
    assert_eq!(points((0, 0), (3, 0)), [(0, 0), (1, 0), (2, 0), (3, 0)]);
    assert_eq!(points((0, 3), (0, 0)), [(0, 3), (0, 2), (0, 1), (0, 0)]);
    assert_eq!(
        points((0, 0), (4, 2)),
        [(0, 0), (1, 0), (2, 1), (3, 1), (4, 2)]
    );
}

#[test]
fn lines_are_connected_and_end_where_they_should() {
    for to_x in -6..=6 {
        for to_y in -6..=6 {
            let from = RasterCoord { x: 1, y: -2 };
            let to = RasterCoord { x: to_x, y: to_y };
            let line = Bresenham::new(from, to).collect();
            assert_eq!((line[0].x, line[0].y), (from.x, from.y));
            let last = line[line.len() - 1];
            assert_eq!((last.x, last.y), (to_x, to_y));
            for pair in line.windows(2) {
                assert!((pair[0].x - pair[1].x).abs() <= 1);
                assert!((pair[0].y - pair[1].y).abs() <= 1);
            }
        }
    }
}

#[test]
fn a_line_ends() {
    let mut line = Bresenham::new(RasterCoord { x: 0, y: 0 }, RasterCoord { x: 1, y: 0 });
    assert!(line.next().is_some());
    assert!(line.next().is_some());
    assert!(line.next().is_none());
    assert!(line.next().is_none());
}

#[test]
fn square_with_a_hole() {
    let ring = |low: i32, high: i32| -> Vec<RasterCoord> {
        [(low, low), (high, low), (high, high), (low, high), (low, low)]
            .iter()
            .map(|point| RasterCoord::from(*point))
            .collect()
    };
    let square = RasterPolygon {
        exterior: ring(0, 7),
        interiors: vec![ring(3, 4)],
    };
    assert_eq!(
        rasterise_multi_polygon_geo(&[square], 4, 2),
        [
            " ▄▄▄▄▄▄ ", //
            " ██▀▀██ ",
            " ██▄▄██ ",
            " ▀▀▀▀▀▀ ",
        ]
    );
}

#[test]
fn nothing_is_drawn_outside() {
    let line = RasterPolygon {
        exterior: vec![RasterCoord { x: -2, y: 0 }, RasterCoord { x: 1, y: 0 }],
        interiors: vec![],
    };
    assert_eq!(
        rasterise_multi_polygon_geo(&[line], 2, 2),
        ["▄▄██", "████"]
    );
    assert_eq!(rasterise_multi_polygon_geo(&[], 1, 2), ["██"]);
}
