//! A worker that takes the visibility of lines of sight from the running kernel and turns them
//! into the rows that go into a database.

use crate::db::{row_of, Row};
use crate::runs;
use crate::segments::PolarSegments;
use vstd::prelude::*;

verus! {

/// What becomes of the rows.
pub enum Engine {
    /// Stores no rows, it exists for testing purposes.
    Noop,
    /// Collects the rows that go into a sqlite database at `path`, in order.
    Sqlite {
        /// Where the database is.
        path: String,
        /// What has still to be written.
        rows: Vec<Row>,
    },
}

/// A wrapper for a storage `Engine`. It converts bitmaps from the kernel into `PolarSegments`.
/// Keeping it a concrete struct lets us hide the underlying engine from the user
/// but gives us flexibility to NOOP storage for testing purposes.
pub struct Worker {
    /// `engine` is the underlying storage engine of the worker.
    pub engine: Engine,
}

/// Whether `row` holds what `bitmap` shows of a point at an angle.
pub open spec fn is_row_for(
    row: Row,
    dem_id: u64,
    neighbourhood_id: Option<i64>,
    angle: u16,
    bitmap: Seq<bool>,
) -> bool {
    &&& row.dem_id == crate::db::signed(dem_id)
    &&& row.neighbourhood_id == neighbourhood_id
    &&& row.angle_id == angle
    &&& exists|segments: Seq<crate::segments::Segment>|
        row.visible_segments@ == #[trigger] crate::db::blob_of(segments)
            && runs::are_runs(bitmap, crate::segments::runs_of(segments))
}

impl Worker {
    /// Whether rows are kept.
    pub open spec fn keeps(&self) -> bool {
        self.engine is Sqlite
    }

    /// The rows that have still to be written.
    pub open spec fn rows(&self) -> Seq<Row> {
        match self.engine {
            Engine::Noop => Seq::empty(),
            Engine::Sqlite { rows, .. } => rows@,
        }
    }

    /// Where the database is, if there is one.
    pub open spec fn path(&self) -> Option<String> {
        match self.engine {
            Engine::Noop => None,
            Engine::Sqlite { path, .. } => Some(path),
        }
    }

    /// `new_noop` initializes a Worker with a dummy engine for testing.
    pub fn new_noop() -> (worker: Self)
        ensures
            !worker.keeps(),
            worker.rows() == Seq::<Row>::empty(),
            worker.path() == None::<String>,
    {
        Worker { engine: Engine::Noop }
    }

    /// `new` creates a new Worker with Sqlite as its backing when
    /// ring data is wanted, otherwise returning a noop.
    pub fn new(path: String, ring_data: bool) -> (worker: Self)
        ensures
            worker.keeps() == ring_data,
            worker.rows() == Seq::<Row>::empty(),
            worker.path() == (if ring_data {
                Some(path)
            } else {
                None
            }),
    {
        if !ring_data {
            return Worker { engine: Engine::Noop };
        }
        Worker { engine: Engine::Sqlite { path, rows: Vec::new() } }
    }

    /// `store_bitmap` converts a bitmap into `PolarSegments` and uses its `Engine` to store it.
    pub fn store_bitmap(
        &mut self,
        dem_id: u64,
        neighbourhood_id: Option<i64>,
        angle: u16,
        bitmap: &[bool],
    )
        requires
            runs::runs_fit(bitmap@),
        ensures
            final(self).keeps() == old(self).keeps(),
            final(self).path() == old(self).path(),
            !old(self).keeps() ==> final(self).rows() == old(self).rows(),
            old(self).keeps() ==> {
                let rows = final(self).rows();
                &&& rows.len() == old(self).rows().len() + 1
                &&& rows.drop_last() == old(self).rows()
                &&& is_row_for(rows.last(), dem_id, neighbourhood_id, angle, bitmap@)
            },
    {
        let segments = PolarSegments::from_bools(angle, bitmap);
        let row = row_of(dem_id, neighbourhood_id, &segments);
        assert(is_row_for(row, dem_id, neighbourhood_id, angle, bitmap@));
        assert(old(self).rows().push(row).drop_last() =~= old(self).rows());
        match &mut self.engine {
            Engine::Noop => {},
            Engine::Sqlite { rows, .. } => rows.push(row),
        }
    }

    /// Take the rows that have still to be written.
    pub fn take_rows(&mut self) -> (rows: Vec<Row>)
        ensures
            rows@ == old(self).rows(),
            final(self).rows() == Seq::<Row>::empty(),
            final(self).keeps() == old(self).keeps(),
            final(self).path() == old(self).path(),
    {
        let mut taken: Vec<Row> = Vec::new();
        match &mut self.engine {
            Engine::Noop => {},
            Engine::Sqlite { rows, .. } => std::mem::swap(&mut taken, rows),
        }
        taken
    }
}

/// What is read back of a written row is what was visible: the blob of a row decodes to the
/// segments of the bitmap and to nothing else.
pub proof fn law_row_reads_back(
    row: Row,
    dem_id: u64,
    neighbourhood_id: Option<i64>,
    angle: u16,
    bitmap: Seq<bool>,
    read: Seq<crate::segments::Segment>,
)
    requires
        is_row_for(row, dem_id, neighbourhood_id, angle, bitmap),
        crate::db::blob_of(read) == row.visible_segments@,
    ensures
        runs::are_runs(bitmap, crate::segments::runs_of(read)),
{
    let segments = choose|segments: Seq<crate::segments::Segment>|
        row.visible_segments@ == #[trigger] crate::db::blob_of(segments)
            && runs::are_runs(bitmap, crate::segments::runs_of(segments));
    crate::db::law_blob_injective(read, segments);
}

} // verus!
