use total_viewsheds::db::{bytes_to_segments, rows_to_segments, segments_to_bytes, BlobError, ID};
use total_viewsheds::ring_storage::{
    angle_key, bytes_to_sector, sector_to_bytes, ByteOrder, SectorError, METADATA_KEY,
    PARTITION_NAME,
};
use total_viewsheds::segments;
use total_viewsheds::storage;
use total_viewsheds::worker::{Engine, Worker};

#[test]
fn storage_bitmap_to_angle() {
    {
        let test_visibility = vec![true, true, true, false, true];
        let angles = storage::PolarSegments::from_bools(0, &test_visibility);
        assert_eq!(angles.visible_segments.len(), 2);
        assert_eq!(angles.visible_segments[0].distance(), 3);
        assert_eq!(angles.visible_segments[1].distance(), 1);
    };

    {
        let test_visibility = vec![true, false, false];
        let angles = storage::PolarSegments::from_bools(0, &test_visibility);
        assert_eq!(angles.visible_segments.len(), 1);
        assert_eq!(angles.visible_segments[0].distance(), 1);
        assert_eq!(angles.visible_segments[0].start(), 0);
    };

    {
        let test_visibility = vec![false, true, true, true, true, false];
        let angles = storage::PolarSegments::from_bools(0, &test_visibility);
        assert_eq!(angles.visible_segments.len(), 1);
        assert_eq!(angles.visible_segments[0].distance(), 4);
    }
}

#[test]
fn segments_bitmap_to_angle() {
    {
        let test_visibility = vec![true, true, true, false, true];
        let angles = segments::PolarSegments::from_bools(0, &test_visibility);
        assert_eq!(angles.visible_segments.len(), 2);
        assert_eq!(angles.visible_segments[0].distance(), 3);
        assert_eq!(angles.visible_segments[1].distance(), 1);
    };

    {
        let test_visibility = vec![true, false, false];
        let angles = segments::PolarSegments::from_bools(0, &test_visibility);
        assert_eq!(angles.visible_segments.len(), 1);
        assert_eq!(angles.visible_segments[0].distance(), 1);
        assert_eq!(angles.visible_segments[0].start(), 0);
    };

    {
        let test_visibility = vec![true, false, true, true, true, true, false];
        let angles = segments::PolarSegments::from_bools(0, &test_visibility);
        assert_eq!(angles.visible_segments.len(), 2);
        assert_eq!(angles.visible_segments[1].distance(), 4);
    }
}

#[test]
fn a_segment_is_two_halves() {
    let segment = segments::Segment::new(0x1234, 0xABCD);
    assert_eq!(segment.0, 0x1234_ABCD);
    assert_eq!(segment.start(), 0x1234);
    assert_eq!(segment.distance(), 0xABCD);
}

#[test]
fn segments_start_where_visibility_starts() {
    let bitmap = [false, false, true, true, false, true];
    let scanned = storage::PolarSegments::from_bools(7, &bitmap);
    assert_eq!(scanned.degree, 7);
    assert_eq!(
        scanned.visible_segments,
        [segments::Segment::new(2, 2), segments::Segment::new(5, 1)]
    );

    let searched = segments::PolarSegments::from_bools(7, &bitmap);
    assert_eq!(searched.degree, 7);
    assert_eq!(
        searched.visible_segments,
        [segments::Segment::new(2, 2), segments::Segment::new(5, 1)]
    );
    assert_eq!(
        segments::PolarSegments::from_bools(0, &[false, true]).visible_segments,
        [segments::Segment::new(1, 1)]
    );
}

#[test]
fn nothing_visible() {
    assert!(storage::PolarSegments::from_bools(0, &[false; 5])
        .visible_segments
        .is_empty());
    assert!(storage::PolarSegments::from_bools(0, &[])
        .visible_segments
        .is_empty());
    assert!(segments::PolarSegments::from_bools(0, &[false; 5])
        .visible_segments
        .is_empty());
    assert!(segments::PolarSegments::from_bools(0, &[])
        .visible_segments
        .is_empty());
}

#[test]
fn everything_visible() {
    let all = [segments::Segment::new(0, 9)];
    assert_eq!(
        storage::PolarSegments::from_bools(0, &[true; 9]).visible_segments,
        all
    );
    assert_eq!(
        segments::PolarSegments::from_bools(0, &[true; 9]).visible_segments,
        all
    );
}

#[test]
fn encoding_is_lossless() {
    for bits in 0..512u16 {
        let bitmap: Vec<bool> = (0..9).map(|bit| bits & (1 << bit) != 0).collect();
        for found in [
            segments::PolarSegments::from_bools(0, &bitmap).visible_segments,
            storage::PolarSegments::from_bools(0, &bitmap).visible_segments,
        ] {
            let mut decoded = vec![false; 9];
            for segment in found {
                for index in segment.start()..segment.start() + segment.distance() {
                    decoded[usize::from(index)] = true;
                }
            }
            assert_eq!(decoded, bitmap);
        }
    }
}

#[test]
fn blobs_are_big_endian() {
    let found = [
        segments::Segment(0x0102_0304),
        segments::Segment(0xFFFE_FDFC),
    ];
    let bytes = segments_to_bytes(&found);
    assert_eq!(bytes, [1, 2, 3, 4, 0xFF, 0xFE, 0xFD, 0xFC]);
    assert_eq!(bytes_to_segments(&bytes).unwrap(), found);
    assert_eq!(bytes_to_segments(&[]).unwrap(), []);
}

#[test]
fn blobs_can_be_truncated() {
    assert_eq!(bytes_to_segments(&[1, 2, 3, 4, 5]), Err(BlobError::Truncated));
    assert_eq!(
        rows_to_segments(&[vec![0, 0, 0, 1], vec![0]]),
        Err(BlobError::Truncated)
    );
    assert_eq!(
        rows_to_segments(&[vec![0, 0, 0, 1], vec![]]).unwrap(),
        [vec![segments::Segment(1)], vec![]]
    );
}

#[test]
fn lookups() {
    assert_eq!(ID::DEM(3).field_and_value(), ("dem_id", 3));
    assert_eq!(
        ID::Neighbourhood(4).field_and_value(),
        ("neighbourhood_id", 4)
    );
    assert_eq!(ID::DEM(3).dem_id(), Some(3));
    assert_eq!(ID::Neighbourhood(4).dem_id(), None);
}

#[test]
fn workers_keep_rows() {
    let mut worker = Worker::new("a.db".to_owned(), true);
    worker.store_bitmap(u64::MAX, Some(9), 3, &[true, false, true]);
    let rows = worker.take_rows();
    assert_eq!(rows.len(), 1);
    assert_eq!(rows[0].dem_id, -1);
    assert_eq!(rows[0].neighbourhood_id, Some(9));
    assert_eq!(rows[0].angle_id, 3);
    assert_eq!(rows[0].visible_segments, [0, 0, 0, 1, 0, 2, 0, 1]);
    assert!(worker.take_rows().is_empty());
    assert!(matches!(worker.engine, Engine::Sqlite { ref path, .. } if path == "a.db"));
}

#[test]
fn noop_workers_keep_nothing() {
    for mut worker in [Worker::new_noop(), Worker::new("a.db".to_owned(), false)] {
        worker.store_bitmap(1, None, 3, &[true]);
        assert!(worker.take_rows().is_empty());
        assert!(matches!(worker.engine, Engine::Noop));
    }
}

#[test]
fn storage_keeps_segments() {
    let mut kept = storage::Storage::new("a.db".to_owned(), true);
    kept.store_bitmap(5, 45, &[true, true]);
    match kept.engine {
        storage::StorageEngine::Sqlite(mut engine) => {
            assert_eq!(engine.path, "a.db");
            let pending = engine.take_pending();
            assert_eq!(pending.len(), 1);
            assert_eq!(pending[0].0, 5);
            assert_eq!(pending[0].1.degree, 45);
            assert_eq!(
                pending[0].1.visible_segments,
                [segments::Segment::new(0, 2)]
            );
        }
        storage::StorageEngine::Noop(_) => panic!("There is a database"),
    }

    for mut dropped in [
        storage::Storage::new_noop(),
        storage::Storage::new("a.db".to_owned(), false),
    ] {
        dropped.store_bitmap(5, 45, &[true, true]);
        assert!(matches!(dropped.engine, storage::StorageEngine::Noop(_)));
    }
}

#[test]
fn sectors_read_back() {
    let ring_data = [42, 0x0102_0304, u32::MAX];
    let (order, bytes) = sector_to_bytes(&ring_data);
    assert_eq!(bytes.len(), 12);
    assert_eq!(bytes[4..8], 0x0102_0304u32.to_ne_bytes());
    assert_eq!(bytes_to_sector(bytes, order).unwrap(), ring_data);

    // Wherever they start.
    let mut shifted = vec![0];
    shifted.extend_from_slice(bytes);
    assert_eq!(bytes_to_sector(&shifted[1..], order).unwrap(), ring_data);
    assert_eq!(
        bytes_to_sector(&shifted, order),
        Err(SectorError::Truncated)
    );
}

#[test]
fn sectors_of_either_order() {
    let bytes = [1, 2, 3, 4, 0, 0, 0, 42];
    assert_eq!(
        bytes_to_sector(&bytes, ByteOrder::Big).unwrap(),
        [0x0102_0304, 42]
    );
    assert_eq!(
        bytes_to_sector(&bytes, ByteOrder::Little).unwrap(),
        [0x0403_0201, 0x2A00_0000]
    );
    assert_eq!(sector_to_bytes(&[]), (ByteOrder::Little, &[][..]));
    assert_eq!(sector_to_bytes(&[0x0101_0101]).0, ByteOrder::Little);
}

#[test]
fn keys_of_sectors() {
    assert_eq!(angle_key(0), "0");
    assert_eq!(angle_key(179), "179");
}

#[test]
fn save_and_load_fjall() {
    let directory = "/tmp/total_viewsheds_save_and_load_fjall";
    let keyspace = fjall::Config::new(directory).open().unwrap();
    let options = fjall::PartitionCreateOptions::default();
    let partition = keyspace.open_partition(PARTITION_NAME, options).unwrap();
    let (order, bytes) = sector_to_bytes(&[42]);
    partition.insert(angle_key(0), bytes).unwrap();
    partition.insert(METADATA_KEY, "{\"width\": 69}").unwrap();

    let metadata = partition.get(METADATA_KEY).unwrap().unwrap();
    assert_eq!(&*metadata, b"{\"width\": 69}");
    let sector = partition.get(angle_key(0)).unwrap().unwrap();
    assert_eq!(bytes_to_sector(&sector, order).unwrap(), vec![42]);
}
