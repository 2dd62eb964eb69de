//! Storage of the visible segments of the points of a total viewshed, keyed by the points' ids
//! within the total viewshed.

use crate::runs;
use crate::runs::Run;
pub use crate::segments::Segment;
use vstd::prelude::*;

verus! {

/// `PolarSegments` holds the degree of a line of sight and the list
/// of visible `Segments` which is constructed through a Run Length
/// Encoding algorithm.
///
/// Each `tvs_id` will have at most 360 degrees.
#[derive(Clone, Debug)]
pub struct PolarSegments {
    /// `degree` is a whole degree in the range [0, 359]
    pub degree: u16,
    /// `visible_segments` is a list of segments visible for a given
    /// angle and tvs id
    pub visible_segments: Vec<Segment>,
}

impl PolarSegments {
    /// `from_bools` constructs a `PolarSegments` from a visibility bitmap.
    /// It does so by implementing a binary Run Length Encoding.
    pub fn from_bools(degree: u16, bitmap: &[bool]) -> (polar_segments: Self)
        requires
            runs::runs_fit(bitmap@),
        ensures
            polar_segments.degree == degree,
            runs::are_runs(
                bitmap@,
                crate::segments::runs_of(polar_segments.visible_segments@),
            ),
    {
        let mut visible_segments: Vec<Segment> = Vec::new();

        let mut cur_index: usize = 0;
        while cur_index < bitmap.len()
            invariant
                cur_index <= bitmap@.len(),
                runs::runs_fit(bitmap@),
                0 < cur_index < bitmap@.len() ==> !bitmap@[cur_index - 1] || !bitmap@[cur_index as int],
                runs::are_runs_of_prefix(
                    bitmap@,
                    crate::segments::runs_of(visible_segments@),
                    cur_index as int,
                ),
            decreases bitmap@.len() - cur_index,
        {
            let ghost old_runs = crate::segments::runs_of(visible_segments@);
            if !bitmap[cur_index] {
                cur_index += 1;
                continue;
            }
            // it must be the case it is visible, scan the list
            // until we find the last visible

            let mut to_index: usize = cur_index + 1;
            while to_index < bitmap.len() && bitmap[to_index]
                invariant
                    cur_index < to_index <= bitmap@.len(),
                    forall|i: int| cur_index <= i < to_index ==> #[trigger] bitmap@[i],
                decreases bitmap@.len() - to_index,
            {
                to_index += 1;
            }

            let ghost run = Run { start: cur_index as int, distance: to_index - cur_index };
            assert(runs::is_visible_run(bitmap@, run));
            let segment = Segment::new(cur_index as u16, (to_index - cur_index) as u16);
            visible_segments.push(segment);
            proof {
                let new_runs = crate::segments::runs_of(visible_segments@);
                assert(segment.run() == run);
                assert(new_runs =~= old_runs.push(run));
                assert forall|i: int| 0 <= i < to_index && #[trigger] bitmap@[i] implies runs::is_covered(
                    new_runs,
                    i,
                ) by {
                    if i < cur_index {
                        assert(runs::is_covered(old_runs, i));
                        let k = choose|k: int|
                            0 <= k < old_runs.len() && (#[trigger] old_runs[k]).covers(i);
                        assert(new_runs[k].covers(i));
                    } else {
                        assert(new_runs[old_runs.len() as int].covers(i));
                    }
                }
            }
            cur_index = to_index;
        }

        PolarSegments { degree, visible_segments }
    }
}

/// One line of sight that was handed over for storage.
pub struct Stored {
    /// The point that is looked from.
    pub tvs_id: u32,
    /// The angle that is looked at.
    pub degree: u16,
    /// What is visible.
    pub visible_segments: Seq<Segment>,
}

/// `Engine` stores `PolarSegments` for a given `tvs_id`.
pub trait Engine: Sized {
    /// Whether the engine keeps what it is given.
    spec fn keeps(&self) -> bool;

    /// What the engine was given to keep, in order.
    spec fn stored(&self) -> Seq<Stored>;

    /// Store the segments of one line of sight.
    fn store_segments(&mut self, tvs_id: u32, segments: PolarSegments)
        ensures
            final(self).keeps() == old(self).keeps(),
            final(self).stored() == (if old(self).keeps() {
                old(self).stored().push(
                    (Stored {
                        tvs_id,
                        degree: segments.degree,
                        visible_segments: segments.visible_segments@,
                    }),
                )
            } else {
                old(self).stored()
            }),
    ;
}

/// `NoopEngine` stores no `PolarSegments`, it exists for testing purposes.
pub struct NoopEngine;

impl Engine for NoopEngine {
    open spec fn keeps(&self) -> bool {
        false
    }

    open spec fn stored(&self) -> Seq<Stored> {
        Seq::empty()
    }

    fn store_segments(&mut self, _tvs_id: u32, _segments: PolarSegments) {
    }
}

/// `SqliteEngine` collects the `PolarSegments` that go into a sqlite database at `path`.
///
/// Whoever writes to the database takes them with `take_pending`, so that the writer is not
/// overwhelmed.
pub struct SqliteEngine {
    /// Where the database is.
    pub path: String,
    /// What has still to be written, in order.
    pub pending: Vec<(u32, PolarSegments)>,
}

/// The model of a pending line of sight.
pub open spec fn stored_of(pending: (u32, PolarSegments)) -> Stored {
    Stored {
        tvs_id: pending.0,
        degree: pending.1.degree,
        visible_segments: pending.1.visible_segments@,
    }
}

impl SqliteEngine {
    /// Create a new `SqliteEngine` storing the database at `path`.
    pub fn new(path: String) -> (engine: Self)
        ensures
            engine.path == path,
            engine.stored() == Seq::<Stored>::empty(),
    {
        let engine = SqliteEngine { path, pending: Vec::new() };
        assert(engine.stored() =~= Seq::<Stored>::empty());
        engine
    }

    /// Take everything that has still to be written.
    pub fn take_pending(&mut self) -> (pending: Vec<(u32, PolarSegments)>)
        ensures
            pending@ == old(self).pending@,
            final(self).pending@ == Seq::<(u32, PolarSegments)>::empty(),
            final(self).path == old(self).path,
    {
        let mut pending: Vec<(u32, PolarSegments)> = Vec::new();
        std::mem::swap(&mut pending, &mut self.pending);
        pending
    }
}

impl Engine for SqliteEngine {
    open spec fn keeps(&self) -> bool {
        true
    }

    open spec fn stored(&self) -> Seq<Stored> {
        self.pending@.map_values(|pending: (u32, PolarSegments)| stored_of(pending))
    }

    fn store_segments(&mut self, tvs_id: u32, segments: PolarSegments)
        ensures
            final(self).pending@ == old(self).pending@.push((tvs_id, segments)),
            final(self).path == old(self).path,
    {
        self.pending.push((tvs_id, segments));
        assert(self.stored() =~= old(self).stored().push(stored_of((tvs_id, segments))));
    }
}

/// The engine of a `Storage`.
pub enum StorageEngine {
    /// Nothing is stored.
    Noop(NoopEngine),
    /// Everything goes to a database.
    Sqlite(SqliteEngine),
}

/// Storage is a wrapper for a storage `Engine`. It converts bitmaps
/// from the kernel into `PolarSegments`.
/// Keeping it a concrete struct lets us hide the underlying engine from the user
/// but gives us flexibility to NOOP storage for testing purposes.
pub struct Storage {
    /// `engine` is the underlying storage engine for our `Storage` struct.
    pub engine: StorageEngine,
}

impl Storage {
    /// Whether bitmaps are kept.
    pub open spec fn keeps(&self) -> bool {
        self.engine is Sqlite
    }

    /// The lines of sight that were kept, in order.
    pub open spec fn stored(&self) -> Seq<Stored> {
        match self.engine {
            StorageEngine::Noop(engine) => engine.stored(),
            StorageEngine::Sqlite(engine) => engine.stored(),
        }
    }

    /// Where the database is, if there is one.
    pub open spec fn path(&self) -> Option<String> {
        match self.engine {
            StorageEngine::Noop(_) => None,
            StorageEngine::Sqlite(engine) => Some(engine.path),
        }
    }

    /// `new_noop` initializes a Storage with a dummy engine for testing.
    pub fn new_noop() -> (storage: Self)
        ensures
            !storage.keeps(),
            storage.stored() == Seq::<Stored>::empty(),
            storage.path() == None::<String>,
    {
        Storage { engine: StorageEngine::Noop(NoopEngine) }
    }

    /// `new` creates a new Storage with Sqlite as its backing when
    /// ring data is wanted, otherwise returning a noop.
    pub fn new(path: String, ring_data: bool) -> (storage: Self)
        ensures
            storage.keeps() == ring_data,
            storage.stored() == Seq::<Stored>::empty(),
            storage.path() == (if ring_data {
                Some(path)
            } else {
                None
            }),
    {
        if !ring_data {
            return Storage { engine: StorageEngine::Noop(NoopEngine) };
        }
        Storage { engine: StorageEngine::Sqlite(SqliteEngine::new(path)) }
    }

    /// `store_bitmap` converts a bitmap into `PolarSegments` and uses its `Engine` to store it.
    pub fn store_bitmap(&mut self, tvs_id: u32, angle: u16, bitmap: &[bool])
        requires
            runs::runs_fit(bitmap@),
        ensures
            final(self).keeps() == old(self).keeps(),
            final(self).path() == old(self).path(),
            !old(self).keeps() ==> final(self).stored() == old(self).stored(),
            old(self).keeps() ==> {
                let stored = final(self).stored();
                &&& stored.len() == old(self).stored().len() + 1
                &&& stored.drop_last() == old(self).stored()
                &&& stored.last().tvs_id == tvs_id
                &&& stored.last().degree == angle
                &&& runs::are_runs(
                    bitmap@,
                    crate::segments::runs_of(stored.last().visible_segments),
                )
            },
    {
        let segments = PolarSegments::from_bools(angle, bitmap);
        let ghost stored = Stored {
            tvs_id,
            degree: angle,
            visible_segments: segments.visible_segments@,
        };
        match &mut self.engine {
            StorageEngine::Noop(engine) => engine.store_segments(tvs_id, segments),
            StorageEngine::Sqlite(engine) => engine.store_segments(tvs_id, segments),
        }
        assert(old(self).stored().push(stored).drop_last() =~= old(self).stored());
    }
}

} // verus!
