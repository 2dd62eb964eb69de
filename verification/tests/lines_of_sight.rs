use total_viewsheds::cpu_two::{kernel, ViewShed};
use total_viewsheds::single::Single;
use total_viewsheds::unrolled_los::UnrolledVectorLos;
use total_viewsheds::vector::{PrefixMax, VectorLos, LOWEST_ANGLE};

fn keys(pov_height: f32, line: &[i16]) -> Vec<i32> {
    line.iter()
        .enumerate()
        .map(|(index, elevation)| {
            let distance = (index + 1) as f32 * 100.0;
            let adjustment = (distance * distance * (0.13 - 1.0)) / 12_742_000.0;
            let gradient = ((f32::from(*elevation) - pov_height) + adjustment) / distance;
            Single(gradient.to_bits()).key()
        })
        .collect()
}

#[test]
fn line_of_sightsame() {
    let line = keys(
        0.0,
        &[
            100, 0, 300, 400, 500, 0, 300, 0, 100, 0, 300, 0, 100, 0, 300, 0,
        ],
    );
    let mut four = UnrolledVectorLos::<16, 4>::new(16);
    let (visibility_four, longest_four, sector_four) = four.line_of_sight(&line);

    let mut eight = UnrolledVectorLos::<8, 8>::new(16);
    let (visibility_eight, longest_eight, sector_eight) = eight.line_of_sight(&line);

    assert_eq!(visibility_four, visibility_eight);
    assert_eq!(longest_four, longest_eight);
    assert_eq!(sector_four, sector_eight);
}

#[test]
fn line_of_sight() {
    let line = keys(0.0, &[1000, 4000, 9000, 12000, 3000, 30000, 3000, 3000]);
    let mut vs = ViewShed::new(8);
    let visibility = vs.line_of_sight(&line);
    println!("{:?}", visibility);
    assert_eq!(
        visibility,
        (
            1 + 2 + 3 + 6,
            vec![true, true, true, false, false, true, false, false]
        )
    );
}

#[test]
fn only_rising_points_are_visible() {
    let line = [10, 5, 10, 11, 3, 12, 12, 13];
    let mut los = UnrolledVectorLos::<1, 4>::new(8);
    assert_eq!(
        los.line_of_sight(&line),
        (
            1 + 4 + 6 + 8,
            8,
            vec![true, false, false, true, false, true, false, true]
        )
    );
}

#[test]
fn nothing_below_the_lowest_angle_is_visible() {
    let mut los = UnrolledVectorLos::<10, 4>::new(4);
    assert_eq!(
        los.line_of_sight(&[LOWEST_ANGLE; 4]),
        (0, 0, vec![false; 4])
    );
    assert_eq!(LOWEST_ANGLE, Single((-2000.0f32).to_bits()).key());
}

#[test]
fn vectors_of_any_width_agree() {
    let line: Vec<i32> = (0..48).map(|index| (index * 7919) % 101).collect();
    let four = UnrolledVectorLos::<10, 4>::new(48).line_of_sight(&line);
    assert_eq!(
        four,
        UnrolledVectorLos::<2, 8>::new(48).line_of_sight(&line)
    );
    assert_eq!(
        four,
        UnrolledVectorLos::<1, 16>::new(48).line_of_sight(&line)
    );
    let (heat, seen) = ViewShed::new(48).line_of_sight(&line);
    assert_eq!((heat, seen), (four.0, four.2));
}

#[test]
fn prefix_maxima() {
    let angles = [3, 1, 4, 1, 5, 9, 2, 6, 5];
    let mut four = [0; 9];
    VectorLos::<4>::prefix_max(2, &angles, &mut four);
    assert_eq!(four, [3, 3, 4, 4, 5, 9, 9, 9, 9]);
    let mut eight = [0; 9];
    VectorLos::<8>::prefix_max(4, &angles, &mut eight);
    assert_eq!(eight, [4, 4, 4, 4, 5, 9, 9, 9, 9]);
    let mut sixteen = [0; 9];
    VectorLos::<16>::prefix_max(10, &angles, &mut sixteen);
    assert_eq!(sixteen, [10; 9]);
}

#[test]
fn lanes() {
    assert_eq!(VectorLos::<4>::max(&[1, 5, 3], &[2, 4, 3]), [2, 5, 3]);
    assert_eq!(
        VectorLos::<4>::gt(&[1, 5, 3], &[2, 4, 3]),
        [false, true, false]
    );
}

#[test]
fn singles_are_ordered_as_floats_are() {
    let floats = [
        f32::NEG_INFINITY,
        -2000.0,
        -1.5,
        -0.0,
        0.0,
        f32::MIN_POSITIVE,
        0.017_453_3,
        1.0,
        f32::INFINITY,
        f32::NAN,
    ];
    for left in floats {
        for right in floats {
            let (a, b) = (Single(left.to_bits()), Single(right.to_bits()));
            assert_eq!(a.gt(b), left > right);
            if !left.is_nan() && !right.is_nan() {
                assert_eq!(a.key() > b.key(), left > right);
            }
        }
        assert_eq!(Single(left.to_bits()).is_nan(), left.is_nan());
    }
}

#[test]
fn kernel_without_unrolling() {
    // The middle row of the rotation of a DEM of 12 by 12 points, and nothing else of interest.
    let max_los = 4;
    let mut indexes = vec![0i32; 2 * max_los * max_los];
    indexes[0] = 5 * 12 + 6;
    let mut angles = vec![vec![0; max_los]; max_los * max_los];
    angles[0] = vec![1, 0, 2, 3];
    let (heatmap, sectors) = kernel(&indexes, &angles, max_los);
    let mut expected = vec![0; 16];
    expected[1 * 4 + 2] = 1 + 3 + 4;
    assert_eq!(heatmap, expected);
    assert_eq!(sectors, [vec![true, false, true, true]]);
}
