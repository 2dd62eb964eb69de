use total_viewsheds::compute::{
    add_sector_surfaces_to_running_total, bitmask_flags_for_kernel, check_viewshed_storage,
    increment_longest_lines, is_process_everything, is_process_longest_lines, is_process_surfaces,
    is_process_viewsheds, sector_steps, Plan, PlanError, SectorLine, SectorSteps,
};
use total_viewsheds::config::{
    check_angle_subdivisions, coordinate_pair, split_coords, Backend, ConfigError,
    HeatmapNormalisation, Process,
};
use total_viewsheds::constants::{Constants, Dimensions, Flag};
use total_viewsheds::cpu_kernel::OutputData;
use total_viewsheds::dem::DEM;
use total_viewsheds::kernel::{Band, BandAngles, Kernel};
use total_viewsheds::chocolate_box::NOOP_DEM_ID;
use total_viewsheds::los_pack::{LineOfSightPacked, PackError, U10_MAX, U22_MAX};
use total_viewsheds::png::{check_pixel_count, PngError};
use total_viewsheds::ring_data::RingData;
use total_viewsheds::single::Single;
use total_viewsheds::tile::{check_size, offset_elevations, projection_parameter, TileError};
use total_viewsheds::vulkan::{
    find_dispatch_dimensions, limits, Pipeline, VulkanError, KERNEL_WORKGROUPS,
};
use total_viewsheds::workers::{angles, blank_output, compilation_worker, databases};

#[test]
fn pack_unpack_small() {
    let line_of_sight = LineOfSightPacked::new(123, 45).unwrap();

    assert_eq!(line_of_sight.distance(), 123);
    assert_eq!(line_of_sight.angle(), 45);
}

#[test]
fn pack_unpack_big() {
    let max_angle = U10_MAX.try_into().unwrap();
    let line_of_sight = LineOfSightPacked::new(U22_MAX, max_angle).unwrap();

    assert_eq!(line_of_sight.distance(), U22_MAX);
    assert_eq!(line_of_sight.angle(), max_angle);
}

#[test]
fn pack_unpack_oversize_distance() {
    let error = LineOfSightPacked::new(U22_MAX + 1, 0).unwrap_err();
    assert_eq!(error, PackError::Distance(4_194_304));
    assert!(error.message().contains("4194304 is greater than u22 max"));
}

#[test]
fn pack_unpack_oversize_angle() {
    let error = LineOfSightPacked::new(0, 1024).unwrap_err();
    assert_eq!(error, PackError::Angle(1024));
    assert!(error.message().contains("1024 is greater than u10 max"));
}

#[test]
fn packed_lines_are_bits() {
    let line = LineOfSightPacked::new(3, 5).unwrap();
    assert_eq!(line.to_u32(), 3 * 1024 + 5);
    assert_eq!(LineOfSightPacked::new_unchecked(3, 5), line);
    // What does not fit is cut off.
    assert_eq!(
        LineOfSightPacked::new_unchecked(U22_MAX + 4, 1024 + 5),
        LineOfSightPacked::new(3, 5).unwrap()
    );
}

#[test]
fn the_first_longest_line_takes_precedence() {
    let first = LineOfSightPacked::new(7, 1).unwrap();
    let second = LineOfSightPacked::new(7, 2).unwrap();
    let longer = LineOfSightPacked::new(8, 0).unwrap();
    assert_eq!(first.max(second), first);
    assert_eq!(second.max(first), second);
    assert_eq!(first.max(longer), longer);
    assert_eq!(longer.max(first), longer);
    assert_eq!(
        first.max(second).max(longer),
        first.max(second.max(longer))
    );
}

#[test]
fn find_dispatches() {
    let (dispatches, invocations) =
        find_dispatch_dimensions(1_000_000, KERNEL_WORKGROUPS).unwrap();
    assert_eq!(dispatches, (16, 16, 16));
    assert_eq!(invocations, (128, 128, 64));
}

#[test]
fn few_dispatches() {
    assert_eq!(
        find_dispatch_dimensions(1, KERNEL_WORKGROUPS),
        Ok(((1, 1, 1), (8, 8, 4)))
    );
    assert_eq!(
        find_dispatch_dimensions(257, KERNEL_WORKGROUPS),
        Ok(((2, 1, 1), (16, 8, 4)))
    );
    assert_eq!(
        find_dispatch_dimensions(1, (0, 1, 1)),
        Err(VulkanError::NoDispatchDimensions)
    );
    assert_eq!(
        VulkanError::NoDispatchDimensions.message(),
        "Couldn't find GPU dispatch dimensions"
    );
}

#[test]
fn limits_of_a_gpu() {
    assert_eq!(limits(1000, 2000), (1000, 2000));
    assert_eq!(limits(u32::MAX, u64::MAX), (0x7FFF_FFFF, 0x7FFF_FFFF));
}

fn constants(process: u32) -> Constants {
    Constants {
        total_bands: 32,
        max_los_as_points: 4,
        dem_width: 12,
        tvs_width: 4,
        reserved_rings_per_band: 5,
        process,
        dimensions: Dimensions {
            x: 0,
            y: 0,
            z: 0,
            w: 0,
        },
    }
}

#[test]
fn pipelines() {
    let pipeline = Pipeline::new(constants(7), 48, 160).unwrap();
    assert_eq!(pipeline.rotations_size, 192);
    assert_eq!(pipeline.output_surfaces_size, 64);
    assert_eq!(pipeline.output_rings_size, 640);
    assert_eq!(pipeline.output_longest_lines_size, 64);
    assert_eq!(pipeline.rotation.dispatches, (1, 1, 1));
    assert_eq!(pipeline.rotation.constants.dimensions.w, 48);
    assert_eq!(pipeline.visibility.constants.dimensions.w, 64);
    assert_eq!(pipeline.visibility.constants.dimensions.x, 8);
    assert_eq!(pipeline.visibility.constants.process, 7);
    assert_eq!(
        Pipeline::new(constants(7), 0x1_0000_0000, 160),
        Err(VulkanError::TooManyPoints(0x1_0000_0000))
    );
}

#[test]
fn invocations_are_numbered() {
    let pass = Pipeline::new(constants(7), 300, 160).unwrap().rotation;
    assert_eq!(pass.dispatches, (2, 1, 1));
    let mut seen = vec![false; 300];
    for z in 0..4 {
        for y in 0..8 {
            for x in 0..16 {
                if let Some(id) = pass.constants.linear_id(x, y, z) {
                    assert!(!seen[id as usize]);
                    seen[id as usize] = true;
                }
            }
        }
    }
    assert!(seen.iter().all(|found| *found));
}

#[test]
fn flags() {
    assert_eq!(
        bitmask_flags_for_kernel(&[Process::TotalSurfaces]),
        Flag::TotalSurfaces.bit()
    );
    assert_eq!(
        bitmask_flags_for_kernel(&[Process::LongestLines, Process::Viewsheds]),
        Flag::RingData.bit() | Flag::LongestLines.bit()
    );
    assert_eq!(bitmask_flags_for_kernel(&[Process::All, Process::All]), 7);
    assert_eq!(bitmask_flags_for_kernel(&[]), 0);
    let only_rings = constants(Flag::RingData.bit());
    assert!(only_rings.is_ring_data());
    assert!(!only_rings.is_total_surfaces());
    assert!(!only_rings.is_longest_lines());
}

#[test]
fn processes() {
    assert!(is_process_everything(&[Process::All]));
    assert!(!is_process_everything(&[Process::Viewsheds]));
    assert!(is_process_surfaces(&[Process::All]));
    assert!(is_process_viewsheds(&[
        Process::LongestLines,
        Process::Viewsheds
    ]));
    assert!(!is_process_viewsheds(&[Process::TotalSurfaces]));
    assert!(!is_process_longest_lines(&[]));
    assert_eq!(check_viewshed_storage(&[Process::All], true), Ok(()));
    assert_eq!(
        check_viewshed_storage(&[Process::TotalSurfaces], false),
        Ok(())
    );
    let error = check_viewshed_storage(&[Process::All], false).unwrap_err();
    assert_eq!(error, ConfigError::ViewshedStorage);
    assert!(error.message().contains("only supported with the ring_data feature"));
}

#[test]
fn plans() {
    let dem = DEM::new(12, 4).unwrap();
    let plan = Plan::new(&dem, &[Process::Viewsheds], 20, true).unwrap();
    assert_eq!(plan.constants.total_bands, 32);
    assert_eq!(plan.constants.max_los_as_points, 4);
    assert_eq!(plan.constants.dem_width, 12);
    assert_eq!(plan.constants.tvs_width, 4);
    assert_eq!(plan.constants.reserved_rings_per_band, 20);
    assert_eq!(plan.constants.process, Flag::RingData.bit());
    assert_eq!(plan.total_reserved_rings, 640);
    assert_eq!(plan.rotations_size, 48);
    assert!(plan.has_storage);

    let surfaces = Plan::new(&dem, &[Process::TotalSurfaces], 20, true).unwrap();
    assert_eq!(surfaces.total_reserved_rings, 1);
    assert_eq!(surfaces.constants.reserved_rings_per_band, 1);
    assert!(!surfaces.has_storage);

    let tiny = DEM::new(3, 1).unwrap();
    assert!(matches!(
        Plan::new(&tiny, &[Process::All], 0x1_0000_0000, false),
        Err(PlanError::TooManyRings(0x1_0000_0000))
    ));
}

#[test]
fn steps_after_a_sector() {
    let none = SectorSteps {
        save_ring_data: false,
        keep_ring_data: false,
        increment_longest_lines: false,
        render_longest_lines: false,
    };
    assert_eq!(sector_steps(&[Process::TotalSurfaces], true, 179), none);
    assert_eq!(
        sector_steps(&[Process::Viewsheds], true, 0),
        SectorSteps {
            save_ring_data: true,
            ..none
        }
    );
    assert_eq!(
        sector_steps(&[Process::All], false, 179),
        SectorSteps {
            save_ring_data: false,
            keep_ring_data: true,
            increment_longest_lines: true,
            render_longest_lines: true,
        }
    );
    assert!(!sector_steps(&[Process::All], false, 178).render_longest_lines);
}

#[test]
fn longest_lines_of_sectors() {
    let mut longest = vec![LineOfSightPacked::new(5, 3).unwrap(); 3];
    let lines = [
        SectorLine {
            distance: 5,
            is_backward: false,
        },
        SectorLine {
            distance: 6,
            is_backward: false,
        },
        SectorLine {
            distance: 7,
            is_backward: true,
        },
    ];
    assert_eq!(increment_longest_lines(&mut longest, &lines, 10), Ok(()));
    assert_eq!(longest[0], LineOfSightPacked::new(5, 3).unwrap());
    assert_eq!(longest[1], LineOfSightPacked::new(6, 10).unwrap());
    assert_eq!(longest[2], LineOfSightPacked::new(7, 190).unwrap());

    let too_long = [SectorLine {
        distance: U22_MAX + 1,
        is_backward: false,
    }];
    assert_eq!(
        increment_longest_lines(&mut longest, &too_long, 10),
        Err(PackError::Distance(U22_MAX + 1))
    );
}

#[test]
fn surfaces_add_up() {
    let mut total = vec![1, 2, 3];
    add_sector_surfaces_to_running_total(&mut total, &[10, 20, 30]);
    assert_eq!(total, [11, 22, 33]);
}

#[test]
fn results_of_workers_add_up() {
    let line = |distance: u32, angle: u16| LineOfSightPacked::new(distance, angle).unwrap();
    let work = [
        OutputData {
            surfaces: vec![1; 4],
            longest: vec![line(1, 0), line(2, 9), line(3, 0), line(0, 0)],
        },
        OutputData {
            surfaces: vec![2; 4],
            longest: vec![line(1, 5), line(1, 5), line(4, 5), line(0, 0)],
        },
    ];
    let compiled = compilation_worker(&work, 2);
    assert_eq!(compiled.surfaces, [3; 4]);
    assert_eq!(
        compiled.longest,
        [line(1, 0), line(2, 9), line(4, 5), line(0, 0)]
    );
    let blank = blank_output(2);
    assert_eq!(blank.surfaces, [0; 4]);
    assert_eq!(blank.longest, [line(0, 0); 4]);
}

#[test]
fn angles_and_databases() {
    assert_eq!(angles(1).len(), 360);
    assert_eq!(angles(4)[1439], 1439);
    assert!(angles(0).is_empty());
    let shared = databases(&[Process::Viewsheds], false);
    assert!(shared.global && !shared.local);
    let own = databases(&[Process::All], true);
    assert!(!own.global && own.local);
    let none = databases(&[Process::LongestLines], true);
    assert!(!none.global && !none.local);
}

#[test]
fn rings_are_counted() {
    let mut buffer = vec![9; 12];
    let mut rings = RingData::new(&mut buffer, 1, 4);
    rings.save(5);
    rings.save(7);
    rings.finish();
    assert_eq!(buffer, [9, 9, 9, 9, 3, 5, 7, 9, 9, 9, 9, 9]);
    let mut full = RingData::new(&mut buffer, 2, 3);
    for value in 1..6 {
        full.save(value);
    }
    full.finish();
    assert_eq!(buffer, [9, 9, 9, 9, 3, 5, 3, 1, 2, 9, 9, 9]);
    let outside = RingData::new(&mut buffer, 3, 5);
    assert_eq!((outside.start, outside.cursor), (15, 1));
    assert_eq!(outside.ring_data.len(), 12);
    // There is room for the first ring only, although more is reserved.
    let mut partly = RingData::new(&mut buffer, 2, 5);
    partly.save(8);
    partly.finish();
    assert_eq!(buffer, [9, 9, 9, 9, 3, 5, 3, 1, 2, 9, 2, 8]);
}

fn keys(band: &[i16], observer: f32) -> Vec<i32> {
    band.iter()
        .enumerate()
        .map(|(index, elevation)| {
            let distance = (index + 1) as f32;
            let gradient = (f32::from(*elevation) - observer) / distance;
            Single(gradient.to_bits()).key()
        })
        .collect()
}

/// The four middle rows of a DEM of 12 by 12 points.
const CHOCOLATE: [i16; 48] = [
    0, 1, 3, 4, 5, 5, 5, 4, 3, 2, 1, 0, //
    0, 1, 3, 4, 4, 0, 6, 5, 4, 2, 1, 0, //
    0, 1, 1, 2, 5, 9, 15, 7, 5, 2, 1, 0, //
    0, 1, 1, 4, 4, 4, 4, 6, 3, 2, 1, 0, //
];

fn invoke(kernel_id: u32) -> (Vec<u64>, Vec<u32>, Vec<i64>) {
    let constants = constants(7);
    let tvs_id = (kernel_id % 16) as usize;
    let band = Band::new(kernel_id, &constants);
    let along = band.elevations(&CHOCOLATE, &constants);
    assert_eq!(along[0], CHOCOLATE[(tvs_id / 4) * 12 + 4 + tvs_id % 4]);
    let angles = keys(&along[1..], f32::from(along[0]) + 1.65);
    let mut surfaces = vec![0; 16];
    let mut rings = vec![0; 160];
    let mut longest = vec![0; 16];
    Kernel::run(
        kernel_id,
        tvs_id,
        &angles,
        &constants,
        &mut surfaces,
        &mut longest,
        &mut rings,
    );
    (surfaces, rings, longest)
}

fn expect_invocation(kernel_id: u32, surface: u64, found: &[u32], line: i64) {
    let (surfaces, rings, longest) = invoke(kernel_id);
    let tvs_id = (kernel_id % 16) as usize;
    let mut expected_surfaces = vec![0; 16];
    expected_surfaces[tvs_id] = surface;
    assert_eq!(surfaces, expected_surfaces);
    let mut expected_longest = vec![0; 16];
    expected_longest[tvs_id] = line;
    assert_eq!(longest, expected_longest);
    let mut expected_rings = vec![0; 160];
    let start = kernel_id as usize * 5;
    expected_rings[start] = found.len() as u32 + 1;
    expected_rings[start + 1..start + 1 + found.len()].copy_from_slice(found);
    assert_eq!(rings, expected_rings);
}

#[test]
fn invocation_at_id5_0_degrees_forward() {
    expect_invocation(5, 1, &[1], 1);
}

#[test]
fn invocation_at_id10_0_degrees_forward() {
    expect_invocation(10, 10, &[4], 4);
}

#[test]
fn invocation_at_id5_0_degrees_backward() {
    expect_invocation(16 + 5, 1, &[1], -1);
}

#[test]
fn invocation_at_id10_0_degrees_backward() {
    expect_invocation(16 + 10, 10, &[4], -4);
}

#[test]
fn regions_open_and_close() {
    let mut surfaces = vec![0; 16];
    let mut rings = vec![0; 160];
    let mut longest = vec![0; 16];
    Kernel::run(
        0,
        0,
        &[1, 0, 2, 1],
        &constants(7),
        &mut surfaces,
        &mut longest,
        &mut rings,
    );
    assert_eq!(surfaces[0], 1 + 3);
    assert_eq!(longest[0], 3);
    assert_eq!(rings[0..5], [4, 1, 2, 3, 0]);
}

#[test]
fn forward_lines_take_precedence() {
    let mut surfaces = vec![0; 16];
    let mut rings = vec![0; 160];
    let mut longest = vec![0; 16];
    let only_longest = constants(Flag::LongestLines.bit());
    let mut run = |kernel_id: u32, angles: &[i32], longest: &mut [i64]| {
        Kernel::run(
            kernel_id,
            3,
            angles,
            &only_longest,
            &mut surfaces,
            longest,
            &mut rings,
        );
    };
    run(16 + 3, &[1, 2, 0, 0], &mut longest);
    assert_eq!(longest[3], -2);
    run(3, &[1, 2, 0, 0], &mut longest);
    assert_eq!(longest[3], 2);
    run(16 + 3, &[1, 2, 0, 0], &mut longest);
    assert_eq!(longest[3], 2);
    run(16 + 3, &[1, 2, 3, 0], &mut longest);
    assert_eq!(longest[3], -3);
    assert_eq!(surfaces, [0; 16]);
    assert_eq!(rings, [0; 160]);
}

#[test]
fn bands_have_sections_of_their_own() {
    let constants = constants(7);
    let bands = [
        BandAngles {
            original_tvs_id: 0,
            angles: vec![1, 0, 2, 1],
        },
        BandAngles {
            original_tvs_id: NOOP_DEM_ID,
            angles: vec![1, 1, 1, 1],
        },
        BandAngles {
            original_tvs_id: 0,
            angles: vec![1, 2, 0, 0],
        },
    ];
    let mut surfaces = vec![0; 16];
    let mut rings = vec![0; 160];
    let mut longest = vec![0; 16];
    Kernel::run_bands(14, &bands, &constants, &mut surfaces, &mut longest, &mut rings);
    assert_eq!(surfaces[0], (1 + 3) + (1 + 2));
    assert_eq!(longest[0], 3);
    assert_eq!(rings[70..75], [4, 1, 2, 3, 0]);
    assert_eq!(rings[75..80], [0; 5]);
    assert_eq!(rings[80..85], [2, 2, 0, 0, 0]);
}

#[test]
fn what_cannot_be_rotated_is_left_alone() {
    let mut surfaces = vec![0; 16];
    let mut rings = vec![0; 160];
    let mut longest = vec![0; 16];
    Kernel::run(
        0,
        NOOP_DEM_ID,
        &[1, 2, 3, 4],
        &constants(7),
        &mut surfaces,
        &mut longest,
        &mut rings,
    );
    assert_eq!((surfaces, rings, longest), (vec![0; 16], vec![0; 160], vec![0; 16]));
}

#[test]
fn choices() {
    assert_eq!(Backend::default(), Backend::CPU);
    assert!(Backend::CPU.is_parallel());
    assert!(!Backend::Vulkan.is_parallel());
    assert_eq!(
        HeatmapNormalisation::default(),
        HeatmapNormalisation::Exponential
    );
    assert_eq!(check_angle_subdivisions(1), Ok(1));
    assert_eq!(check_angle_subdivisions(100), Ok(100));
    for wrong in [0, 101] {
        let error = check_angle_subdivisions(wrong).unwrap_err();
        assert_eq!(error, ConfigError::AngleSubdivisions);
        assert_eq!(
            error.message(),
            "Angle subdivisions must be between (0, 100]"
        );
    }
}

#[test]
fn coordinates_are_split_at_commas() {
    assert_eq!(split_coords("-3.5,51.2"), ["-3.5", "51.2"]);
    assert_eq!(split_coords("1,,2"), ["1", "", "2"]);
    assert_eq!(split_coords(""), [""]);
    assert_eq!(coordinate_pair(&[1.5, 2.5]), Ok((1.5, 2.5)));
    assert_eq!(coordinate_pair(&[1.5]), Err(ConfigError::Coordinate));
    assert_eq!(
        coordinate_pair(&[1.5, 2.5, 3.5]),
        Err(ConfigError::Coordinate)
    );
}

#[test]
fn tiles_are_square() {
    assert_eq!(check_size(10, 10), Ok(10));
    assert_eq!(check_size(10, 11), Err(TileError::NotSquare(10, 11)));
    assert_eq!(
        check_size(0x1_0000_0000, 0x1_0000_0000),
        Err(TileError::TooWide(0x1_0000_0000))
    );
}

#[test]
fn unsigned_elevations_are_offset() {
    assert_eq!(
        offset_elevations(&[0, 32_767, 32_768, 65_534]),
        Ok(vec![-32_767, 0, 1, 32_767])
    );
    assert_eq!(
        offset_elevations(&[0, 65_535]),
        Err(TileError::ElevationOutOfRange(65_535))
    );
}

#[test]
fn centres_of_projections() {
    let projection = "+proj=aeqd +lat_0=51.5074 +lon_0=-0.1278 +x_0=0 +datum=WGS84 +units=m +no_defs";
    let parameter = |key: &str| projection_parameter(projection, key);
    assert_eq!(parameter("+lat_0="), Some("51.5074".to_owned()));
    assert_eq!(parameter("+lon_0="), Some("-0.1278".to_owned()));
    assert_eq!(parameter("+lat_1="), None);
    assert_eq!(
        projection_parameter("x+lat_0=1\t+lat_0=2=3 +lat_0=4", "+lat_0="),
        Some("2".to_owned())
    );
    assert_eq!(projection_parameter("+lat_0=", "+lat_0="), Some(String::new()));
    assert_eq!(projection_parameter("", "+lat_0="), None);
}

#[test]
fn images_need_all_their_pixels() {
    assert_eq!(check_pixel_count(12, 4, 3), Ok(()));
    assert_eq!(
        check_pixel_count(11, 4, 3),
        Err(PngError::PixelCount(11, 4, 3))
    );
}
