//! Join the visible segments from each computed angle into the viewshed.
//!
//! Which openings touch, and what outlines become by joining, is measured by the caller. What follows
//! from it is decided here: what is joined to what, and which polygons can still grow.

use crate::vertices::{contact, FoundOpening, Opening, Vertex};
use vstd::prelude::*;

verus! {

/// A polygon that segments and other polygons can still be joined to.
#[derive(Debug)]
pub struct GrowablePolygon {
    /// The outline, with its openings.
    pub vertices: Vec<Vertex>,
    /// How far from the centre the furthest opening is.
    pub furthest_opening: u32,
    /// Whether a segment of the current angle touches it.
    pub is_touched: bool,
    /// Whether it starts at 0 degrees.
    pub is_created_at_angle_0: bool,
}

/// Why polygons cannot be joined.
#[derive(Debug, Clone, Copy, PartialEq, Eq, Structural)]
pub enum JoinError {
    /// The first vertex is the start of an opening.
    OpeningWithoutVertex,
    /// The start of an opening is not followed by its end.
    StartWithoutEnd,
    /// There is an end without a start.
    UnexpectedEnd,
}

impl JoinError {
    /// What to tell the user.
    pub fn message(&self) -> (text: &'static str)
        ensures
            text@ == (match *self {
                JoinError::OpeningWithoutVertex => "Opening without following vertex"@,
                JoinError::StartWithoutEnd => "Opening start not followed by opening end"@,
                JoinError::UnexpectedEnd => "Unexpected opening end reached"@,
            }),
    {
        match self {
            JoinError::OpeningWithoutVertex => "Opening without following vertex",
            JoinError::StartWithoutEnd => "Opening start not followed by opening end",
            JoinError::UnexpectedEnd => "Unexpected opening end reached",
        }
    }
}

/// The active openings among the first `count` vertices, the last one first. It is an error if a
/// start and an end do not belong together.
pub open spec fn scanned(vertices: Seq<Vertex>, count: int) -> Result<Seq<FoundOpening>, JoinError>
    decreases count,
{
    if count <= 0 {
        Ok(Seq::empty())
    } else {
        match vertices[count - 1].opening {
            Opening::Start(start) => if count == 1 {
                Err(JoinError::OpeningWithoutVertex)
            } else {
                match vertices[count - 2].opening {
                    Opening::End(end) => match scanned(vertices, count - 2) {
                        Ok(rest) => Ok(
                            seq![FoundOpening { index: (count - 1) as usize, start, end }] + rest,
                        ),
                        Err(error) => Err(error),
                    },
                    _ => Err(JoinError::StartWithoutEnd),
                }
            },
            Opening::End(_) => Err(JoinError::UnexpectedEnd),
            _ => scanned(vertices, count - 1),
        }
    }
}

/// Find the active openings of a polygon, the last one first.
pub fn scan_openings(vertices: &[Vertex]) -> (openings: Result<Vec<FoundOpening>, JoinError>)
    ensures
        match openings {
            Ok(openings) => scanned(vertices@, vertices@.len() as int) == Ok::<_, JoinError>(
                openings@,
            ),
            Err(error) => scanned(vertices@, vertices@.len() as int) == Err::<
                Seq<FoundOpening>,
                _,
            >(error),
        },
{
    let mut openings: Vec<FoundOpening> = Vec::new();
    let mut count: usize = vertices.len();
    while count > 0
        invariant
            count <= vertices@.len(),
            scanned(vertices@, vertices@.len() as int) == (match scanned(
                vertices@,
                count as int,
            ) {
                Ok(rest) => Ok::<_, JoinError>(openings@ + rest),
                Err(error) => Err(error),
            }),
        decreases count,
    {
        let index: usize = count - 1;
        match vertices[index].opening {
            Opening::Start(start) => {
                if index == 0 {
                    return Err(JoinError::OpeningWithoutVertex);
                }
                match vertices[index - 1].opening {
                    Opening::End(end) => {
                        let ghost before = openings@;
                        let opening = FoundOpening { index, start, end };
                        openings.push(opening);
                        proof {
                            if let Ok(rest) = scanned(vertices@, count - 2) {
                                assert(before + (seq![opening] + rest) =~= openings@ + rest);
                            }
                        }
                        count = count - 2;
                    },
                    _ => {
                        return Err(JoinError::StartWithoutEnd);
                    },
                }
            },
            Opening::End(_) => {
                return Err(JoinError::UnexpectedEnd);
            },
            _ => {
                count = count - 1;
            },
        }
    }
    assert(openings@ + Seq::<FoundOpening>::empty() =~= openings@);
    Ok(openings)
}

/// What is to be joined.
#[derive(Debug, Clone, Copy, PartialEq, Eq, Structural)]
pub enum Join {
    /// The segment is joined to the polygon at `base`.
    Segment {
        /// The polygon that grows.
        base: usize,
    },
    /// The polygon at `joining`, which the segment was joined to already, is joined to the polygon
    /// at `base`.
    Polygon {
        /// The polygon that grows.
        base: usize,
        /// The polygon that is taken up.
        joining: usize,
    },
}

/// What a segment does to the active polygons.
#[derive(Debug)]
pub struct SegmentPlan {
    /// What is to be joined, in order.
    pub joins: Vec<Join>,
    /// The polygons to be removed once everything is joined, in order.
    pub joined_polygons_to_remove: Vec<usize>,
    /// Whether the segment touches any polygon. Otherwise it becomes a polygon of its own.
    pub is_segment_touching_anything: bool,
}

/// The first one of the polygons just before `index` that the segment touches one after another.
pub open spec fn joining_polygon(touches: Seq<bool>, index: int) -> Option<usize>
    decreases index,
{
    if index <= 0 || !touches[index - 1] {
        None
    } else {
        match joining_polygon(touches, index - 1) {
            Some(joining) => Some(joining),
            None => Some((index - 1) as usize),
        }
    }
}

/// What is to be joined among the first `count` polygons.
pub open spec fn joins_of(touches: Seq<bool>, count: int) -> Seq<Join>
    decreases count,
{
    if count <= 0 {
        Seq::empty()
    } else if touches[count - 1] {
        joins_of(touches, count - 1).push(
            match joining_polygon(touches, count - 1) {
                Some(joining) => Join::Polygon { base: (count - 1) as usize, joining },
                None => Join::Segment { base: (count - 1) as usize },
            },
        )
    } else {
        joins_of(touches, count - 1)
    }
}

/// The polygons to be removed once the first `count` polygons were checked: for each polygon that
/// takes up another one, the one that is taken up.
pub open spec fn removed_of(touches: Seq<bool>, count: int) -> Seq<usize>
    decreases count,
{
    if count <= 0 {
        Seq::empty()
    } else {
        match (touches[count - 1], joining_polygon(touches, count - 1)) {
            (true, Some(joining)) => removed_of(touches, count - 1).push(joining),
            _ => removed_of(touches, count - 1),
        }
    }
}

/// A list once items were removed, one after the other: each by where it is when it is its turn.
pub open spec fn without<A>(items: Seq<A>, removed: Seq<usize>) -> Seq<A>
    decreases removed.len(),
{
    if removed.len() == 0 {
        items
    } else {
        without(items, removed.drop_last()).remove(removed.last() as int)
    }
}

/// Whether each item is there when it is its turn to be removed.
pub open spec fn can_remove(len: int, removed: Seq<usize>) -> bool
    decreases removed.len(),
{
    removed.len() == 0 || (can_remove(len, removed.drop_last()) && removed.last() < len
        - removed.len() + 1)
}

/// Keeps track of active and completed polygons within a viewshed.
#[derive(Debug)]
pub struct Joiner {
    /// Polygons that don't intersect with the current angle. They don't need to be checked against
    /// new segments.
    pub completed: Vec<GrowablePolygon>,
    /// Polygons that intersect with the current angle. They must be checked to see if any of their
    /// openings touch any of the segments of the current angle.
    pub active: Vec<GrowablePolygon>,
}

/// A polygon that no segment of the current angle touches yet.
pub open spec fn untouched(polygon: GrowablePolygon) -> GrowablePolygon {
    GrowablePolygon { is_touched: false, ..polygon }
}

/// Whether `order` holds each of the first numbers once.
pub open spec fn is_permutation(order: Seq<int>, len: int) -> bool {
    &&& order.len() == len
    &&& forall|i: int| 0 <= i < len ==> 0 <= #[trigger] order[i] < len
    &&& forall|i: int, j: int|
        #![trigger order[i], order[j]]
        0 <= i < j < len ==> order[i] != order[j]
}

/// Whether polygons in this order are sorted by how far their openings are from the centre. Of two
/// that are as far, the first one stays first.
pub open spec fn is_sorted(order: Seq<int>, polygons: Seq<GrowablePolygon>, count: int) -> bool {
    forall|i: int, j: int|
        #![trigger order[i], order[j]]
        0 <= i < j < count ==> {
            let (left, right) = (
                polygons[order[i]].furthest_opening,
                polygons[order[j]].furthest_opening,
            );
            left < right || (left == right && order[i] < order[j])
        }
}

/// Whether `prepared` are the polygons in the order of their openings' distance from the centre, and
/// none of them is touched.
pub open spec fn is_prepared(
    polygons: Seq<GrowablePolygon>,
    prepared: Seq<GrowablePolygon>,
) -> bool {
    exists|order: Seq<int>| #[trigger]
        is_permutation(order, polygons.len() as int) && is_sorted(
            order,
            polygons,
            polygons.len() as int,
        ) && prepared == Seq::new(polygons.len(), |i: int| untouched(polygons[order[i]]))
}

/// The polygons among the first `count` ones that are touched, or that are not.
pub open spec fn touched_ones(polygons: Seq<GrowablePolygon>, touched: bool, count: int) -> Seq<
    GrowablePolygon,
>
    decreases count,
{
    if count <= 0 {
        Seq::empty()
    } else if polygons[count - 1].is_touched == touched {
        touched_ones(polygons, touched, count - 1).push(polygons[count - 1])
    } else {
        touched_ones(polygons, touched, count - 1)
    }
}

/// A polygon that was touched if it was before, or is now.
pub open spec fn touched_by(polygon: GrowablePolygon, touches: bool) -> GrowablePolygon {
    GrowablePolygon { is_touched: polygon.is_touched || touches, ..polygon }
}

/// Polygons once a segment was checked against each of them.
pub open spec fn all_touched_by(polygons: Seq<GrowablePolygon>, touches: Seq<bool>) -> Seq<
    GrowablePolygon,
> {
    Seq::new(polygons.len(), |i: int| touched_by(polygons[i], touches[i]))
}

/// Whether a polygon touches a segment, by which of its active openings do. The last opening comes
/// first.
pub open spec fn is_touching(polygon: GrowablePolygon, touching: Seq<bool>) -> bool {
    match scanned(polygon.vertices@, polygon.vertices@.len() as int) {
        Ok(openings) => crate::vertices::contact_of(openings, touching) is Some,
        Err(_) => false,
    }
}

/// Which polygons touch a segment, by which of their active openings do.
pub open spec fn touches_of(polygons: Seq<GrowablePolygon>, touching: Seq<Vec<bool>>) -> Seq<bool> {
    Seq::new(polygons.len(), |i: int| is_touching(polygons[i], touching[i]@))
}

/// What is wrong with the first of the first `count` polygons whose openings do not belong together.
pub open spec fn first_error(polygons: Seq<GrowablePolygon>, count: int) -> Option<JoinError>
    decreases count,
{
    if count <= 0 {
        None
    } else {
        match first_error(polygons, count - 1) {
            Some(error) => Some(error),
            None => match scanned(
                polygons[count - 1].vertices@,
                polygons[count - 1].vertices@.len() as int,
            ) {
                Ok(_) => None,
                Err(error) => Some(error),
            },
        }
    }
}

/// Whether there is one flag for each active opening of each polygon.
pub open spec fn are_measured(polygons: Seq<GrowablePolygon>, touching: Seq<Vec<bool>>) -> bool {
    &&& touching.len() == polygons.len()
    &&& forall|i: int|
        0 <= i < polygons.len() ==> (scanned(
            (#[trigger] polygons[i]).vertices@,
            polygons[i].vertices@.len() as int,
        ) matches Ok(openings) ==> openings.len() == touching[i]@.len())
}

/// Find the polygons that touch a segment, by which of their active openings do.
pub fn touching_polygons(polygons: &[GrowablePolygon], touching: &[Vec<bool>]) -> (touches: Result<
    Vec<bool>,
    JoinError,
>)
    requires
        are_measured(polygons@, touching@),
    ensures
        match touches {
            Ok(touches) => {
                &&& first_error(polygons@, polygons@.len() as int) is None
                &&& touches@ == touches_of(polygons@, touching@)
            },
            Err(error) => first_error(polygons@, polygons@.len() as int) == Some(error),
        },
{
    let mut touches: Vec<bool> = Vec::new();
    let mut index: usize = 0;
    while index < polygons.len()
        invariant
            are_measured(polygons@, touching@),
            index <= polygons@.len(),
            first_error(polygons@, index as int) is None,
            touches@ == touches_of(polygons@, touching@).take(index as int),
        decreases polygons@.len() - index,
    {
        assert(polygons@[index as int] == polygons[index as int]);
        match polygons[index].touching_range(touching[index].as_slice()) {
            Ok(range) => touches.push(range.is_some()),
            Err(error) => {
                proof {
                    lemma_first_error_stays(polygons@, index + 1, polygons@.len() as int);
                }
                return Err(error);
            },
        }
        index += 1;
        assert(touches@ =~= touches_of(polygons@, touching@).take(index as int));
    }
    assert(touches@ =~= touches_of(polygons@, touching@));
    Ok(touches)
}

/// What is wrong with the first polygons is what is wrong with all of them.
proof fn lemma_first_error_stays(polygons: Seq<GrowablePolygon>, few: int, many: int)
    requires
        few <= many,
        first_error(polygons, few) is Some,
    ensures
        first_error(polygons, many) == first_error(polygons, few),
    decreases many - few,
{
    if few < many {
        lemma_first_error_stays(polygons, few, many - 1);
        assert(many > 0);
    }
}

/// How many of the first `count` polygons touch a segment.
pub open spec fn touched_count(touches: Seq<bool>, count: int) -> nat
    decreases count,
{
    if count <= 0 {
        0
    } else {
        touched_count(touches, count - 1) + (if touches[count - 1] {
            1nat
        } else {
            0nat
        })
    }
}

/// Polygons once those that touch a segment were joined: they became the `grown` ones, in order.
pub open spec fn grown_by(
    polygons: Seq<GrowablePolygon>,
    touches: Seq<bool>,
    grown: Seq<GrowablePolygon>,
) -> Seq<GrowablePolygon> {
    Seq::new(
        polygons.len(),
        |i: int|
            if touches[i] {
                GrowablePolygon {
                    is_touched: polygons[i].is_touched,
                    ..grown[touched_count(touches, i) as int]
                }
            } else {
                polygons[i]
            },
    )
}

/// Polygons once their openings were downgraded.
pub open spec fn downgraded_to(
    polygons: Seq<GrowablePolygon>,
    downgraded: Seq<GrowablePolygon>,
) -> Seq<GrowablePolygon> {
    Seq::new(
        polygons.len(),
        |i: int| GrowablePolygon { is_touched: polygons[i].is_touched, ..downgraded[i] },
    )
}

/// A segment of the current angle.
#[derive(Debug)]
pub struct AngleSegment {
    /// For each of the polygons that are active when it is its turn, which active openings it
    /// touches. The last opening comes first.
    pub touching: Vec<Vec<bool>>,
    /// What those of the polygons that it touches become by what is joined, in order.
    pub grown: Vec<GrowablePolygon>,
    /// The polygon that it becomes itself, if it touches none of them.
    pub polygon: GrowablePolygon,
}

/// Which polygons a segment touches.
pub open spec fn segment_touches(
    polygons: Seq<GrowablePolygon>,
    segment: AngleSegment,
) -> Seq<bool> {
    touches_of(polygons, segment.touching@)
}

/// The polygons that are active after the first `count` segments of an angle.
pub open spec fn active_after(
    polygons: Seq<GrowablePolygon>,
    segments: Seq<AngleSegment>,
    count: int,
) -> Seq<GrowablePolygon>
    decreases count,
{
    if count <= 0 {
        polygons
    } else {
        let before = active_after(polygons, segments, count - 1);
        let touches = segment_touches(before, segments[count - 1]);
        without(
            grown_by(all_touched_by(before, touches), touches, segments[count - 1].grown@),
            removed_of(touches, touches.len() as int),
        )
    }
}

/// Why the first `count` segments of an angle cannot be joined, if they cannot.
pub open spec fn error_after(
    polygons: Seq<GrowablePolygon>,
    segments: Seq<AngleSegment>,
    count: int,
) -> Option<JoinError>
    decreases count,
{
    if count <= 0 {
        None
    } else {
        match error_after(polygons, segments, count - 1) {
            Some(error) => Some(error),
            None => {
                let before = active_after(polygons, segments, count - 1);
                first_error(before, before.len() as int)
            },
        }
    }
}

/// The polygons that those of the first `count` segments become that touch nothing.
pub open spec fn new_polygons_of(
    polygons: Seq<GrowablePolygon>,
    segments: Seq<AngleSegment>,
    count: int,
) -> Seq<GrowablePolygon>
    decreases count,
{
    if count <= 0 {
        Seq::empty()
    } else {
        let before = active_after(polygons, segments, count - 1);
        if segment_touches(before, segments[count - 1]).contains(true) {
            new_polygons_of(polygons, segments, count - 1)
        } else {
            new_polygons_of(polygons, segments, count - 1).push(segments[count - 1].polygon)
        }
    }
}

/// The polygons that are left after all segments of an angle. The last segment downgrades openings.
pub open spec fn left_after(
    polygons: Seq<GrowablePolygon>,
    segments: Seq<AngleSegment>,
    downgraded: Seq<GrowablePolygon>,
) -> Seq<GrowablePolygon> {
    let active = active_after(polygons, segments, segments.len() as int);
    if segments.len() == 0 {
        active
    } else {
        downgraded_to(active, downgraded)
    }
}

/// Whether a segment fits the polygons that are active when it is its turn: there is a flag for
/// each opening, a grown polygon for each that is touched, and what is to be removed is there.
pub open spec fn is_turn_of(polygons: Seq<GrowablePolygon>, segment: AngleSegment) -> bool {
    let touches = segment_touches(polygons, segment);
    &&& are_measured(polygons, segment.touching@)
    &&& first_error(polygons, polygons.len() as int) is None ==> {
        &&& segment.grown@.len() == touched_count(touches, touches.len() as int)
        &&& can_remove(polygons.len() as int, removed_of(touches, touches.len() as int))
    }
}

/// Whether all segments of an angle fit, up to the first one that cannot be joined.
pub open spec fn is_angle(
    polygons: Seq<GrowablePolygon>,
    segments: Seq<AngleSegment>,
    downgraded: Seq<GrowablePolygon>,
) -> bool {
    &&& forall|k: int|
        0 <= k < segments.len() && error_after(polygons, segments, k) is None ==> is_turn_of(
            active_after(polygons, segments, k),
            #[trigger] segments[k],
        )
    &&& segments.len() > 0 && error_after(polygons, segments, segments.len() as int) is None
        ==> downgraded.len() == active_after(polygons, segments, segments.len() as int).len()
}

/// Whether there is the plan for each of the first `count` segments of an angle.
pub open spec fn are_plans_for(
    plans: Seq<SegmentPlan>,
    polygons: Seq<GrowablePolygon>,
    segments: Seq<AngleSegment>,
    count: int,
) -> bool {
    &&& plans.len() == count
    &&& forall|k: int|
        0 <= k < count ==> is_plan_for(
            #[trigger] plans[k],
            segment_touches(active_after(polygons, segments, k), segments[k]),
        )
}

/// Whether `after` is what building an angle makes of the joiner `before`, if its active polygons
/// were put into the order `polygons`.
pub open spec fn is_built(
    before: Joiner,
    after: Joiner,
    polygons: Seq<GrowablePolygon>,
    segments: Seq<AngleSegment>,
    downgraded: Seq<GrowablePolygon>,
    plans: Result<Vec<SegmentPlan>, JoinError>,
) -> bool {
    match plans {
        Ok(plans) => {
            let left = left_after(polygons, segments, downgraded);
            &&& error_after(polygons, segments, segments.len() as int) is None
            &&& are_plans_for(plans@, polygons, segments, segments.len() as int)
            &&& after.active@ == touched_ones(left, true, left.len() as int) + new_polygons_of(
                polygons,
                segments,
                segments.len() as int,
            )
            &&& after.completed@ == before.completed@ + touched_ones(
                left,
                false,
                left.len() as int,
            )
        },
        Err(error) => {
            &&& error_after(polygons, segments, segments.len() as int) == Some(error)
            &&& after.completed@ == before.completed@
            &&& exists|k: int|
                #![trigger segments[k]]
                0 <= k < segments.len() && error_after(polygons, segments, k) is None
                    && error_after(polygons, segments, k + 1) is Some && after.active@
                    == active_after(polygons, segments, k)
        },
    }
}

/// An error of the first segments is the one of all of them.
proof fn lemma_error_after_stays(
    polygons: Seq<GrowablePolygon>,
    segments: Seq<AngleSegment>,
    few: int,
    many: int,
)
    requires
        few <= many,
        error_after(polygons, segments, few) is Some,
    ensures
        error_after(polygons, segments, many) == error_after(polygons, segments, few),
    decreases many - few,
{
    if few < many {
        lemma_error_after_stays(polygons, segments, few, many - 1);
        assert(many > 0);
    }
}

/// Whether a plan is the one for a segment that touches some of the active polygons.
pub open spec fn is_plan_for(plan: SegmentPlan, touches: Seq<bool>) -> bool {
    &&& plan.joins@ == joins_of(touches, touches.len() as int)
    &&& plan.joined_polygons_to_remove@ == removed_of(touches, touches.len() as int)
    &&& plan.is_segment_touching_anything == touches.contains(true)
}

impl Joiner {
    /// Nothing to join to yet.
    pub fn new() -> (joiner: Self)
        ensures
            joiner.completed@ == Seq::<GrowablePolygon>::empty(),
            joiner.active@ == Seq::<GrowablePolygon>::empty(),
    {
        Joiner { completed: Vec::new(), active: Vec::new() }
    }

    /// Set all active polygons to untouched and order them based on their openings' distance from
    /// the centre.
    pub fn prepare_active_polygons(&mut self)
        ensures
            final(self).completed@ == old(self).completed@,
            is_prepared(old(self).active@, final(self).active@),
    {
        let len: usize = self.active.len();
        let ghost polygons = self.active@;
        let ghost n = len as int;
        let ghost mut order: Seq<int> = Seq::new(len as nat, |i: int| i);
        let mut sorted: usize = 0;
        while sorted < len
            invariant
                sorted <= len == self.active@.len() == polygons.len() == n,
                self.completed@ == old(self).completed@,
                polygons == old(self).active@,
                is_permutation(order, n),
                is_sorted(order, polygons, sorted as int),
                forall|i: int| 0 <= i < n ==> #[trigger] self.active@[i] == polygons[order[i]],
                forall|i: int| sorted <= i < n ==> #[trigger] order[i] == i,
                forall|i: int| 0 <= i < sorted ==> #[trigger] order[i] < sorted,
            decreases len - sorted,
        {
            let furthest: u32 = self.active[sorted].furthest_opening;
            let mut place: usize = sorted;
            while place > 0 && self.active[place - 1].furthest_opening > furthest
                invariant
                    place <= sorted < len == self.active@.len(),
                    furthest == self.active@[sorted as int].furthest_opening,
                    forall|i: int|
                        place <= i < sorted ==> (#[trigger] self.active@[i]).furthest_opening
                            > furthest,
                decreases place,
            {
                place -= 1;
            }
            let ghost old_order = order;
            let ghost old_active = self.active@;
            let polygon = self.active.remove(sorted);
            self.active.insert(place, polygon);
            proof {
                let moved = order[sorted as int];
                order = order.remove(sorted as int).insert(place as int, moved);
                assert(moved == sorted);
                assert forall|i: int| 0 <= i < n implies #[trigger] order[i] == (if i < place {
                    old_order[i]
                } else if i == place {
                    sorted as int
                } else if i <= sorted {
                    old_order[i - 1]
                } else {
                    i
                }) by {}
                assert forall|i: int| 0 <= i < n implies #[trigger] self.active@[i]
                    == polygons[order[i]] by {
                    if i < place || i > sorted {
                        assert(self.active@[i] == old_active[i]);
                    } else if i > place {
                        assert(self.active@[i] == old_active[i - 1]);
                    }
                }
                assert forall|i: int, j: int|
                    #![trigger order[i], order[j]]
                    0 <= i < j < n implies order[i] != order[j] by {
                    let a = if i < place || i > sorted {
                        i
                    } else if i == place {
                        sorted as int
                    } else {
                        i - 1
                    };
                    let b = if j < place || j > sorted {
                        j
                    } else if j == place {
                        sorted as int
                    } else {
                        j - 1
                    };
                    assert(order[i] == old_order[a] && order[j] == old_order[b] && a != b);
                    if a < b {
                        assert(old_order[a] != old_order[b]);
                    } else {
                        assert(old_order[b] != old_order[a]);
                    }
                }
                assert forall|i: int, j: int|
                    #![trigger order[i], order[j]]
                    0 <= i < j < sorted + 1 implies {
                    let (left, right) = (
                        polygons[order[i]].furthest_opening,
                        polygons[order[j]].furthest_opening,
                    );
                    left < right || (left == right && order[i] < order[j])
                } by {
                    if i == place {
                        assert(old_active[j - 1].furthest_opening > furthest);
                        assert(old_active[j - 1] == polygons[old_order[j - 1]]);
                    } else if j == place {
                        assert(old_order[i] < sorted);
                        assert(old_active[i] == polygons[old_order[i]]);
                        if place > 0 && i < place - 1 {
                            assert(old_active[place - 1] == polygons[old_order[place - 1]]);
                            assert(polygons[old_order[i]].furthest_opening
                                <= polygons[old_order[place - 1]].furthest_opening);
                        }
                    } else {
                        let a = if i < place {
                            i
                        } else {
                            i - 1
                        };
                        let b = if j < place {
                            j
                        } else {
                            j - 1
                        };
                        assert(order[i] == old_order[a] && order[j] == old_order[b]);
                    }
                }
            }
            sorted += 1;
        }
        let mut index: usize = 0;
        while index < len
            invariant
                index <= len == self.active@.len() == n,
                self.completed@ == old(self).completed@,
                polygons == old(self).active@,
                forall|i: int|
                    0 <= i < index ==> #[trigger] self.active@[i] == untouched(polygons[order[i]]),
                forall|i: int| index <= i < n ==> #[trigger] self.active@[i] == polygons[order[i]],
            decreases len - index,
        {
            self.active[index].is_touched = false;
            index += 1;
        }
        assert(self.active@ =~= Seq::new(
            old(self).active@.len(),
            |i: int| untouched(old(self).active@[order[i]]),
        ));
    }
}

impl GrowablePolygon {
    /// When a segment doesn't touch anything it becomes its own independent polygon.
    pub fn new(vertices: Vec<Vertex>, furthest_opening: u32, is_angle_0: bool) -> (polygon: Self)
        ensures
            polygon.vertices == vertices,
            polygon.furthest_opening == furthest_opening,
            !polygon.is_touched,
            polygon.is_created_at_angle_0 == is_angle_0,
    {
        GrowablePolygon {
            vertices,
            furthest_opening,
            is_touched: false,
            is_created_at_angle_0: is_angle_0,
        }
    }

    /// The vertices that a segment replaces, by which of the openings touch it. There are none, if
    /// it does not touch any of them.
    pub fn touching_range(&self, touches: &[bool]) -> (range: Result<
        Option<(usize, usize)>,
        JoinError,
    >)
        requires
            scanned(self.vertices@, self.vertices@.len() as int) matches Ok(openings)
                ==> openings.len() == touches@.len(),
        ensures
            match (scanned(self.vertices@, self.vertices@.len() as int), range) {
                (Ok(openings), Ok(Some((end, start)))) => crate::vertices::contact_of(
                    openings,
                    touches@,
                ) == Some((end as int, start as int)),
                (Ok(openings), Ok(None)) => crate::vertices::contact_of(openings, touches@) is None,
                (Err(expected), Err(error)) => error == expected,
                _ => false,
            },
    {
        match scan_openings(self.vertices.as_slice()) {
            Ok(openings) => Ok(contact(openings.as_slice(), touches)),
            Err(error) => Err(error),
        }
    }
}

impl Joiner {
    /// If a polygon wasn't touched by a segment from the current angle then it is moved to
    /// `self.completed`.
    pub fn move_untouched_active_polygons_to_completed(&mut self)
        ensures
            final(self).active@ == touched_ones(
                old(self).active@,
                true,
                old(self).active@.len() as int,
            ),
            final(self).completed@ == old(self).completed@ + touched_ones(
                old(self).active@,
                false,
                old(self).active@.len() as int,
            ),
    {
        let ghost polygons = self.active@;
        let ghost mut checked: int = 0;
        let mut index: usize = 0;
        assert(self.active@ =~= Seq::<GrowablePolygon>::empty() + polygons.skip(0));
        assert(self.completed@ =~= old(self).completed@ + Seq::<GrowablePolygon>::empty());
        while index < self.active.len()
            invariant
                polygons == old(self).active@,
                0 <= checked <= polygons.len(),
                index == touched_ones(polygons, true, checked).len(),
                self.active@ == touched_ones(polygons, true, checked) + polygons.skip(checked),
                self.completed@ == old(self).completed@ + touched_ones(polygons, false, checked),
            decreases polygons.len() - checked,
        {
            let ghost kept = touched_ones(polygons, true, checked);
            assert(self.active@[index as int] == polygons[checked]);
            if self.active[index].is_touched {
                index += 1;
                assert(self.active@ =~= kept.push(polygons[checked]) + polygons.skip(checked + 1));
            } else {
                let ghost before = self.completed@;
                let polygon = self.active.remove(index);
                assert(self.active@ =~= kept + polygons.skip(checked + 1));
                self.completed.push(polygon);
                assert(self.completed@ =~= old(self).completed@ + touched_ones(
                    polygons,
                    false,
                    checked,
                ).push(polygons[checked]));
            }
            proof {
                checked = checked + 1;
            }
        }
        assert(checked == polygons.len());
        assert(self.active@ =~= touched_ones(polygons, true, checked));
    }

    /// Once all angles have been checked, we can move all active polygons to "completed".
    pub fn move_all_active_polygons_to_completed(&mut self)
        ensures
            final(self).active@ == Seq::<GrowablePolygon>::empty(),
            final(self).completed@ == old(self).completed@ + old(self).active@,
    {
        self.completed.append(&mut self.active);
    }

    /// Check a segment against all active polygons, by which of them it touches: note which ones
    /// are touched, and say what is to be joined.
    pub fn touch_segment(&mut self, touches: &[bool]) -> (plan: SegmentPlan)
        requires
            touches@.len() == old(self).active@.len(),
        ensures
            final(self).completed@ == old(self).completed@,
            final(self).active@ == all_touched_by(old(self).active@, touches@),
            is_plan_for(plan, touches@),
    {
        let mut joins: Vec<Join> = Vec::new();
        let mut joined_polygons_to_remove: Vec<usize> = Vec::new();
        let mut is_segment_touching_anything: bool = false;
        let mut maybe_joining_polygon_index: Option<usize> = None;
        let mut index: usize = 0;
        while index < touches.len()
            invariant
                index <= touches@.len() == self.active@.len() == old(self).active@.len(),
                self.completed@ == old(self).completed@,
                forall|i: int|
                    0 <= i < index ==> #[trigger] self.active@[i] == touched_by(
                        old(self).active@[i],
                        touches@[i],
                    ),
                forall|i: int|
                    index <= i < touches@.len() ==> #[trigger] self.active@[i] == old(
                        self,
                    ).active@[i],
                joins@ == joins_of(touches@, index as int),
                joined_polygons_to_remove@ == removed_of(touches@, index as int),
                maybe_joining_polygon_index == joining_polygon(touches@, index as int),
                is_segment_touching_anything <==> exists|i: int|
                    0 <= i < index && #[trigger] touches@[i],
            decreases touches@.len() - index,
        {
            let touching: bool = touches[index];
            if touching {
                self.active[index].is_touched = true;
                is_segment_touching_anything = true;
                match maybe_joining_polygon_index {
                    Some(joining) => {
                        joins.push(Join::Polygon { base: index, joining });
                        joined_polygons_to_remove.push(joining);
                    },
                    None => {
                        joins.push(Join::Segment { base: index });
                        maybe_joining_polygon_index = Some(index);
                    },
                }
            } else {
                maybe_joining_polygon_index = None;
            }
            assert(touches@[index as int] == touching);
            index += 1;
        }
        assert(self.active@ =~= all_touched_by(old(self).active@, touches@));
        assert(is_segment_touching_anything == touches@.contains(true)) by {
            if touches@.contains(true) {
                let i = choose|i: int| 0 <= i < touches@.len() && touches@[i] == true;
                assert(touches@[i]);
            }
        }
        SegmentPlan { joins, joined_polygons_to_remove, is_segment_touching_anything }
    }

    /// Remove the polygons that were joined to others, one after the other: each by where it is when
    /// it is its turn.
    pub fn remove_joined_polygons(&mut self, joined_polygons_to_remove: &[usize])
        requires
            can_remove(old(self).active@.len() as int, joined_polygons_to_remove@),
        ensures
            final(self).completed@ == old(self).completed@,
            final(self).active@ == without(old(self).active@, joined_polygons_to_remove@),
    {
        let ghost removed = joined_polygons_to_remove@;
        let ghost len = self.active@.len() as int;
        let mut index: usize = 0;
        assert(removed.take(0) =~= Seq::<usize>::empty());
        while index < joined_polygons_to_remove.len()
            invariant
                removed == joined_polygons_to_remove@,
                len == old(self).active@.len(),
                can_remove(len, removed),
                index <= removed.len(),
                self.completed@ == old(self).completed@,
                self.active@ == without(old(self).active@, removed.take(index as int)),
                self.active@.len() == len - index,
            decreases removed.len() - index,
        {
            proof {
                lemma_can_remove_first(len, removed, index + 1);
                assert(removed.take(index + 1).drop_last() =~= removed.take(index as int));
            }
            self.active.remove(joined_polygons_to_remove[index]);
            index += 1;
        }
        assert(removed.take(index as int) =~= removed);
    }

    /// Let the polygons that a segment touches become what they are by what is joined.
    pub fn grow_polygons(&mut self, touches: &[bool], grown: Vec<GrowablePolygon>)
        requires
            touches@.len() == old(self).active@.len(),
            grown@.len() == touched_count(touches@, touches@.len() as int),
        ensures
            final(self).completed@ == old(self).completed@,
            final(self).active@ == grown_by(old(self).active@, touches@, grown@),
    {
        let ghost all = grown@;
        let mut grown = grown;
        let mut next: usize = 0;
        let mut index: usize = 0;
        while index < touches.len()
            invariant
                index <= touches@.len() == self.active@.len() == old(self).active@.len(),
                self.completed@ == old(self).completed@,
                grown@.len() == all.len() == touched_count(touches@, touches@.len() as int),
                next == touched_count(touches@, index as int),
                forall|i: int| next <= i < all.len() ==> #[trigger] grown@[i] == all[i],
                forall|i: int|
                    0 <= i < index ==> #[trigger] self.active@[i] == grown_by(
                        old(self).active@,
                        touches@,
                        all,
                    )[i],
                forall|i: int|
                    index <= i < touches@.len() ==> #[trigger] self.active@[i] == old(
                        self,
                    ).active@[i],
            decreases touches@.len() - index,
        {
            if touches[index] {
                proof {
                    lemma_touched_count_rises(touches@, index + 1, touches@.len() as int);
                }
                let is_touched: bool = self.active[index].is_touched;
                assert(next < grown.len());
                std::mem::swap(&mut self.active[index], &mut grown[next]);
                self.active[index].is_touched = is_touched;
                next += 1;
            }
            index += 1;
        }
        assert(self.active@ =~= grown_by(old(self).active@, touches@, all));
    }

    /// Let the active polygons become what they are once their openings were downgraded.
    pub fn downgrade_openings(&mut self, downgraded: Vec<GrowablePolygon>)
        requires
            downgraded@.len() == old(self).active@.len(),
        ensures
            final(self).completed@ == old(self).completed@,
            final(self).active@ == downgraded_to(old(self).active@, downgraded@),
    {
        let ghost all = downgraded@;
        let mut downgraded = downgraded;
        let mut index: usize = 0;
        while index < self.active.len()
            invariant
                index <= self.active@.len() == old(self).active@.len() == all.len()
                    == downgraded@.len(),
                self.completed@ == old(self).completed@,
                forall|i: int| index <= i < all.len() ==> #[trigger] downgraded@[i] == all[i],
                forall|i: int|
                    0 <= i < index ==> #[trigger] self.active@[i] == downgraded_to(
                        old(self).active@,
                        all,
                    )[i],
                forall|i: int|
                    index <= i < all.len() ==> #[trigger] self.active@[i] == old(self).active@[i],
            decreases all.len() - index,
        {
            let is_touched: bool = self.active[index].is_touched;
            std::mem::swap(&mut self.active[index], &mut downgraded[index]);
            self.active[index].is_touched = is_touched;
            index += 1;
        }
        assert(self.active@ =~= downgraded_to(old(self).active@, all));
    }

    /// Once all segments of an angle were checked, polygons that none of them touched are
    /// completed, and segments that touched nothing become active polygons.
    pub fn finish_angle(&mut self, new_polygons: Vec<GrowablePolygon>)
        ensures
            final(self).active@ == touched_ones(
                old(self).active@,
                true,
                old(self).active@.len() as int,
            ) + new_polygons@,
            final(self).completed@ == old(self).completed@ + touched_ones(
                old(self).active@,
                false,
                old(self).active@.len() as int,
            ),
    {
        self.move_untouched_active_polygons_to_completed();
        let mut polygons = new_polygons;
        self.active.append(&mut polygons);
    }

    /// Build the viewshed for a single angle: every segment, in order, is checked against the
    /// polygons that are active when it is its turn. The plans say what is joined for each.
    ///
    /// What polygons become by joining, and by downgrading their openings after the last segment,
    /// is measured by the caller.
    pub fn build_angle(
        &mut self,
        segments: Vec<AngleSegment>,
        downgraded: Vec<GrowablePolygon>,
    ) -> (plans: Result<Vec<SegmentPlan>, JoinError>)
        requires
            forall|polygons: Seq<GrowablePolygon>| #[trigger]
                is_prepared(old(self).active@, polygons) ==> is_angle(
                    polygons,
                    segments@,
                    downgraded@,
                ),
        ensures
            exists|polygons: Seq<GrowablePolygon>| #[trigger]
                is_prepared(old(self).active@, polygons) && is_built(
                    *old(self),
                    *final(self),
                    polygons,
                    segments@,
                    downgraded@,
                    plans,
                ),
    {
        let ghost all = segments@;
        let has_segments: bool = segments.len() > 0;
        self.prepare_active_polygons();
        let ghost polygons = self.active@;
        assert(is_prepared(old(self).active@, polygons));
        let mut plans: Vec<SegmentPlan> = Vec::new();
        let mut new_polygons: Vec<GrowablePolygon> = Vec::new();
        for segment in iter: segments
            invariant
                iter.seq() == all,
                is_prepared(old(self).active@, polygons),
                is_angle(polygons, all, downgraded@),
                self.completed@ == old(self).completed@,
                error_after(polygons, all, iter.index() as int) is None,
                self.active@ == active_after(polygons, all, iter.index() as int),
                new_polygons@ == new_polygons_of(polygons, all, iter.index() as int),
                are_plans_for(plans@, polygons, all, iter.index() as int),
        {
            let ghost k = iter.index() as int;
            assert(segment == all[k]);
            let touches = match touching_polygons(
                self.active.as_slice(),
                segment.touching.as_slice(),
            ) {
                Ok(touches) => touches,
                Err(error) => {
                    proof {
                        lemma_error_after_stays(polygons, all, k + 1, all.len() as int);
                        assert(all[k] == segment);
                        assert(is_built(
                            *old(self),
                            *self,
                            polygons,
                            all,
                            downgraded@,
                            Err(error),
                        ));
                    }
                    return Err(error);
                },
            };
            let plan = self.touch_segment(touches.as_slice());
            self.grow_polygons(touches.as_slice(), segment.grown);
            self.remove_joined_polygons(plan.joined_polygons_to_remove.as_slice());
            if !plan.is_segment_touching_anything {
                new_polygons.push(segment.polygon);
            }
            plans.push(plan);
        }
        if has_segments {
            self.downgrade_openings(downgraded);
        }
        self.finish_angle(new_polygons);
        Ok(plans)
    }

    /// Get the polygons involved in a touch check.
    pub fn get_involved_polygons(
        &mut self,
        growable_polygon_index: usize,
        maybe_joining_polygon_index: Option<usize>,
    ) -> (involved: (&mut GrowablePolygon, Option<&mut GrowablePolygon>))
        requires
            growable_polygon_index < old(self).active@.len(),
            maybe_joining_polygon_index matches Some(joining) ==> joining
                < old(self).active@.len() && joining != growable_polygon_index,
        ensures
            *involved.0 == old(self).active@[growable_polygon_index as int],
            involved.1 is Some <==> maybe_joining_polygon_index is Some,
            final(self).completed@ == old(self).completed@,
            match (involved.1, maybe_joining_polygon_index) {
                (Some(polygon), Some(joining)) => {
                    &&& *polygon == old(self).active@[joining as int]
                    &&& final(self).active@ == old(self).active@.update(
                        growable_polygon_index as int,
                        *final(involved.0),
                    ).update(joining as int, *final(polygon))
                },
                _ => final(self).active@ == old(self).active@.update(
                    growable_polygon_index as int,
                    *final(involved.0),
                ),
            },
    {
        match maybe_joining_polygon_index {
            Some(joining) => {
                let slice: &mut [GrowablePolygon] = self.active.as_mut_slice();
                if growable_polygon_index < joining {
                    let (left, right) = slice.split_at_mut(joining);
                    (&mut left[growable_polygon_index], Some(&mut right[0]))
                } else {
                    let (left, right) = slice.split_at_mut(growable_polygon_index);
                    (&mut right[0], Some(&mut left[joining]))
                }
            },
            None => (&mut self.active[growable_polygon_index], None),
        }
    }
}

/// There is one order only in which polygons can be prepared.
pub proof fn law_prepared_is_unique(
    polygons: Seq<GrowablePolygon>,
    left: Seq<GrowablePolygon>,
    right: Seq<GrowablePolygon>,
)
    requires
        is_prepared(polygons, left),
        is_prepared(polygons, right),
    ensures
        left == right,
{
    let len = polygons.len() as int;
    let one = choose|order: Seq<int>| #[trigger]
        is_permutation(order, len) && is_sorted(order, polygons, len) && left == Seq::new(
            polygons.len(),
            |i: int| untouched(polygons[order[i]]),
        );
    let other = choose|order: Seq<int>| #[trigger]
        is_permutation(order, len) && is_sorted(order, polygons, len) && right == Seq::new(
            polygons.len(),
            |i: int| untouched(polygons[order[i]]),
        );
    lemma_orders_agree(polygons, one, other, len);
    assert(left =~= right);
}

/// Two sorted orders agree on their first `count` places.
proof fn lemma_orders_agree(
    polygons: Seq<GrowablePolygon>,
    one: Seq<int>,
    other: Seq<int>,
    count: int,
)
    requires
        is_permutation(one, polygons.len() as int),
        is_permutation(other, polygons.len() as int),
        is_sorted(one, polygons, polygons.len() as int),
        is_sorted(other, polygons, polygons.len() as int),
        0 <= count <= polygons.len(),
    ensures
        forall|i: int| 0 <= i < count ==> #[trigger] one[i] == other[i],
    decreases count,
{
    if count > 0 {
        let last = count - 1;
        lemma_orders_agree(polygons, one, other, last);
        let j = lemma_permutation_has(other, polygons.len() as int, one[last]);
        let i = lemma_permutation_has(one, polygons.len() as int, other[last]);
        if j < last {
            assert(one[j] == other[j]);
        }
        if i < last {
            assert(one[i] == other[i]);
        }
        if j > last && i > last {
            assert(other[last] != other[j] && one[last] != one[i]);
        }
    }
}

/// A permutation has every number somewhere.
proof fn lemma_permutation_has(order: Seq<int>, len: int, number: int) -> (place: int)
    requires
        is_permutation(order, len),
        0 <= number < len,
    ensures
        0 <= place < len,
        order[place] == number,
{
    let all = vstd::set_lib::set_int_range(0, len);
    vstd::set_lib::lemma_int_range(0, len);
    order.unique_seq_to_set();
    assert(order.to_set().subset_of(all));
    vstd::set_lib::lemma_subset_equality(order.to_set(), all);
    assert(order.to_set().contains(number));
    choose|place: int| 0 <= place < len && order[place] == number
}

/// The first items can be removed if all can.
proof fn lemma_can_remove_first(len: int, removed: Seq<usize>, count: int)
    requires
        can_remove(len, removed),
        0 <= count <= removed.len(),
    ensures
        can_remove(len, removed.take(count)),
    decreases removed.len(),
{
    if count < removed.len() {
        lemma_can_remove_first(len, removed.drop_last(), count);
        assert(removed.drop_last().take(count) =~= removed.take(count));
    } else {
        assert(removed.take(count) =~= removed);
    }
}

/// More polygons touch a segment, if more are looked at.
proof fn lemma_touched_count_rises(touches: Seq<bool>, few: int, many: int)
    requires
        few <= many,
    ensures
        touched_count(touches, few) <= touched_count(touches, many),
    decreases many - few,
{
    if few < many {
        lemma_touched_count_rises(touches, few, many - 1);
    }
}

/// Every removal removes one polygon.
pub proof fn law_each_removal_removes_one<A>(items: Seq<A>, removed: Seq<usize>)
    requires
        can_remove(items.len() as int, removed),
    ensures
        without(items, removed).len() == items.len() - removed.len(),
    decreases removed.len(),
{
    if removed.len() > 0 {
        law_each_removal_removes_one(items, removed.drop_last());
    }
}

/// The joins of a plan can always be carried out: they name polygons that are there and that the
/// segment touches, and a polygon takes up one that is before it.
pub proof fn law_joins_can_be_carried_out(touches: Seq<bool>, count: int, k: int)
    requires
        0 <= count <= touches.len() <= usize::MAX,
        0 <= k < joins_of(touches, count).len(),
    ensures
        match joins_of(touches, count)[k] {
            Join::Segment { base } => base < count && touches[base as int],
            Join::Polygon { base, joining } => joining < base < count && touches[base as int]
                && touches[joining as int],
        },
    decreases count,
{
    lemma_joining_before(touches, count - 1);
    if k < joins_of(touches, count - 1).len() {
        law_joins_can_be_carried_out(touches, count - 1, k);
    }
}

/// Where a segment touches one row of polygons only, and otherwise none that are next to each other,
/// all polygons of the row but its last one are removed, and no others.
pub proof fn law_last_of_a_row_stays<A>(items: Seq<A>, touches: Seq<bool>, first: int, last: int)
    requires
        items.len() == touches.len() <= usize::MAX,
        0 <= first <= last < touches.len(),
        forall|i: int| first <= i <= last ==> #[trigger] touches[i],
        first == 0 || !touches[first - 1],
        forall|i: int, j: int|
            0 <= i < touches.len() && j == i + 1 && j < touches.len() && #[trigger] touches[i]
                && #[trigger] touches[j] ==> first <= i < last,
    ensures
        can_remove(items.len() as int, removed_of(touches, touches.len() as int)),
        without(items, removed_of(touches, touches.len() as int)) == items.take(first) + items.skip(
            last,
        ),
{
    lemma_row_is_removed(touches, first, last, touches.len() as int);
    lemma_removed_from_one_place(items, first, last - first);
}

/// The first one of a row is what is removed for each of the others.
proof fn lemma_row_is_removed(touches: Seq<bool>, first: int, last: int, count: int)
    requires
        touches.len() <= usize::MAX,
        0 <= first <= last < touches.len(),
        0 <= count <= touches.len(),
        forall|i: int| first <= i <= last ==> #[trigger] touches[i],
        first == 0 || !touches[first - 1],
        forall|i: int, j: int|
            0 <= i < touches.len() && j == i + 1 && j < touches.len() && #[trigger] touches[i]
                && #[trigger] touches[j] ==> first <= i < last,
    ensures
        removed_of(touches, count) == Seq::new(
            (if count - 1 <= first {
                0
            } else if count - 1 <= last {
                count - 1 - first
            } else {
                last - first
            }) as nat,
            |i: int| first as usize,
        ),
    decreases count,
{
    if count > 0 {
        lemma_row_is_removed(touches, first, last, count - 1);
        let before = removed_of(touches, count - 1);
        if count > 1 && touches[count - 2] && touches[count - 1] {
            lemma_joining_is_first(touches, first, count - 1);
            assert(removed_of(touches, count) == before.push(first as usize));
        } else {
            assert(removed_of(touches, count) == before);
            if first < count - 1 <= last {
                assert(touches[count - 2] && touches[count - 1]);
            }
        }
        assert(removed_of(touches, count) =~= Seq::new(
            (if count - 1 <= first {
                0
            } else if count - 1 <= last {
                count - 1 - first
            } else {
                last - first
            }) as nat,
            |i: int| first as usize,
        ));
    } else {
        assert(removed_of(touches, count) =~= Seq::new(0, |i: int| first as usize));
    }
}

/// What is removed again and again from one place is what came after it.
proof fn lemma_removed_from_one_place<A>(items: Seq<A>, first: int, times: int)
    requires
        0 <= first,
        0 <= times,
        first + times < items.len() <= usize::MAX,
    ensures
        can_remove(items.len() as int, Seq::new(times as nat, |i: int| first as usize)),
        without(items, Seq::new(times as nat, |i: int| first as usize)) == items.take(first)
            + items.skip(first + times),
    decreases times,
{
    let removed = Seq::new(times as nat, |i: int| first as usize);
    if times > 0 {
        let fewer = Seq::new((times - 1) as nat, |i: int| first as usize);
        lemma_removed_from_one_place(items, first, times - 1);
        assert(removed.drop_last() =~= fewer);
        assert((items.take(first) + items.skip(first + times - 1)).remove(first) =~= items.take(first)
            + items.skip(first + times));
    } else {
        assert(items.take(first) + items.skip(first) =~= items);
    }
}

/// No polygon is lost when an angle is finished, and none is made up: each is either still active or
/// completed.
pub proof fn law_polygons_are_kept(polygons: Seq<GrowablePolygon>, count: int)
    requires
        0 <= count <= polygons.len(),
    ensures
        (touched_ones(polygons, true, count) + touched_ones(polygons, false, count)).to_multiset()
            == polygons.take(count).to_multiset(),
    decreases count,
{
    broadcast use vstd::seq_lib::group_to_multiset_ensures;

    let touched = touched_ones(polygons, true, count);
    let others = touched_ones(polygons, false, count);
    vstd::seq_lib::lemma_multiset_commutative(touched, others);
    if count == 0 {
        assert((touched + others) =~= polygons.take(count));
    } else {
        law_polygons_are_kept(polygons, count - 1);
        let before = touched_ones(polygons, true, count - 1);
        let rest = touched_ones(polygons, false, count - 1);
        vstd::seq_lib::lemma_multiset_commutative(before, rest);
        assert(polygons.take(count) =~= polygons.take(count - 1).push(polygons[count - 1]));
        if polygons[count - 1].is_touched {
            assert(touched.to_multiset() =~= before.to_multiset().insert(polygons[count - 1]));
        } else {
            assert(others.to_multiset() =~= rest.to_multiset().insert(polygons[count - 1]));
        }
        assert((touched + others).to_multiset() =~= (before + rest).to_multiset().insert(
            polygons[count - 1],
        ));
    }
}

/// A segment is joined to the first one only of the polygons that it touches one after another. Each
/// of the others takes up that first one, which is then to be removed.
pub proof fn law_segment_joined_once_in_a_row(touches: Seq<bool>, first: int, index: int)
    requires
        0 <= first < index < touches.len() <= usize::MAX,
        forall|i: int| first <= i <= index ==> #[trigger] touches[i],
        first == 0 || !touches[first - 1],
    ensures
        joins_of(touches, first + 1).last() == (Join::Segment { base: first as usize }),
        joins_of(touches, index + 1).last() == (Join::Polygon {
            base: index as usize,
            joining: first as usize,
        }),
        removed_of(touches, index + 1).last() == first,
{
    lemma_joining_is_first(touches, first, index);
}

/// The polygon to be taken up is the first one of those that are touched one after another.
proof fn lemma_joining_is_first(touches: Seq<bool>, first: int, index: int)
    requires
        0 <= first < index <= touches.len() <= usize::MAX,
        forall|i: int| first <= i < index ==> #[trigger] touches[i],
        first == 0 || !touches[first - 1],
    ensures
        joining_polygon(touches, index) == Some(first as usize),
        joining_polygon(touches, first) is None,
    decreases index,
{
    if first < index - 1 {
        lemma_joining_is_first(touches, first, index - 1);
    }
}

/// The polygon to be taken up is before the one that takes it up.
proof fn lemma_joining_before(touches: Seq<bool>, index: int)
    requires
        0 <= index,
    ensures
        joining_polygon(touches, index) matches Some(joining) ==> joining < index && (index
            <= usize::MAX ==> touches[joining as int]),
    decreases index,
{
    if index > 0 {
        lemma_joining_before(touches, index - 1);
    }
}

/// The places of the segments that touch nothing, in order, by their plans.
pub open spec fn untouched_places(plans: Seq<SegmentPlan>) -> Seq<int> {
    Seq::new(plans.len(), |k: int| k).filter(|k: int| !plans[k].is_segment_touching_anything)
}

/// Every segment that touches no active polygon when it is its turn becomes a polygon of its own,
/// in the order of the segments, and no other segment does.
pub proof fn law_untouched_segments_become_polygons(
    plans: Seq<SegmentPlan>,
    polygons: Seq<GrowablePolygon>,
    segments: Seq<AngleSegment>,
    count: int,
)
    requires
        0 <= count <= segments.len(),
        are_plans_for(plans, polygons, segments, count),
    ensures
        new_polygons_of(polygons, segments, count) == untouched_places(plans).map_values(
            |k: int| segments[k].polygon,
        ),
    decreases count,
{
    reveal(Seq::filter);
    let all = Seq::new(plans.len(), |k: int| k);
    if count > 0 {
        let fewer = plans.drop_last();
        assert forall|k: int| 0 <= k < count - 1 implies is_plan_for(
            #[trigger] fewer[k],
            segment_touches(active_after(polygons, segments, k), segments[k]),
        ) by {
            assert(fewer[k] == plans[k]);
        }
        law_untouched_segments_become_polygons(fewer, polygons, segments, count - 1);
        let few = Seq::new(fewer.len(), |k: int| k);
        assert(all.drop_last() =~= few);
        lemma_same_filter(
            few,
            |k: int| !fewer[k].is_segment_touching_anything,
            |k: int| !plans[k].is_segment_touching_anything,
        );
        assert(is_plan_for(
            plans[count - 1],
            segment_touches(active_after(polygons, segments, count - 1), segments[count - 1]),
        ));
    }
    assert(new_polygons_of(polygons, segments, count) =~= untouched_places(plans).map_values(
        |k: int| segments[k].polygon,
    ));
}

/// What agrees on all items filters alike.
proof fn lemma_same_filter<A>(
    items: Seq<A>,
    left: spec_fn(A) -> bool,
    right: spec_fn(A) -> bool,
)
    requires
        forall|i: int| 0 <= i < items.len() ==> left(#[trigger] items[i]) == right(items[i]),
    ensures
        items.filter(left) == items.filter(right),
    decreases items.len(),
{
    reveal(Seq::filter);
    if items.len() > 0 {
        assert forall|i: int| 0 <= i < items.len() - 1 implies left(
            #[trigger] items.drop_last()[i],
        ) == right(items.drop_last()[i]) by {
            assert(items.drop_last()[i] == items[i]);
        }
        lemma_same_filter(items.drop_last(), left, right);
        assert(items.last() == items[items.len() - 1]);
    }
}

/// The touched polygons are all those that are, in order.
pub proof fn law_touched_ones_are_all(polygons: Seq<GrowablePolygon>, touched: bool, count: int)
    requires
        0 <= count <= polygons.len(),
    ensures
        touched_ones(polygons, touched, count) == polygons.take(count).filter(
            |polygon: GrowablePolygon| polygon.is_touched == touched,
        ),
    decreases count,
{
    reveal(Seq::filter);
    if count > 0 {
        law_touched_ones_are_all(polygons, touched, count - 1);
        assert(polygons.take(count).drop_last() =~= polygons.take(count - 1));
    } else {
        assert(polygons.take(0) =~= Seq::<GrowablePolygon>::empty());
    }
}

/// Once an angle is built, what is active is every polygon that a segment touches, in order, and
/// then every segment that touches nothing, in order. What no segment touches is completed.
pub proof fn law_angle_is_built(
    before: Joiner,
    after: Joiner,
    polygons: Seq<GrowablePolygon>,
    segments: Seq<AngleSegment>,
    downgraded: Seq<GrowablePolygon>,
    plans: Vec<SegmentPlan>,
)
    requires
        is_built(before, after, polygons, segments, downgraded, Ok(plans)),
    ensures
        plans@.len() == segments.len(),
        after.active@ == left_after(polygons, segments, downgraded).filter(
            |polygon: GrowablePolygon| polygon.is_touched,
        ) + untouched_places(plans@).map_values(|k: int| segments[k].polygon),
        after.completed@ == before.completed@ + left_after(polygons, segments, downgraded).filter(
            |polygon: GrowablePolygon| !polygon.is_touched,
        ),
{
    let left = left_after(polygons, segments, downgraded);
    law_untouched_segments_become_polygons(
        plans@,
        polygons,
        segments,
        segments.len() as int,
    );
    assert(left.take(left.len() as int) =~= left);
    law_touched_ones_are_all(left, true, left.len() as int);
    law_touched_ones_are_all(left, false, left.len() as int);
    lemma_same_filter(
        left,
        |polygon: GrowablePolygon| polygon.is_touched == true,
        |polygon: GrowablePolygon| polygon.is_touched,
    );
    lemma_same_filter(
        left,
        |polygon: GrowablePolygon| polygon.is_touched == false,
        |polygon: GrowablePolygon| !polygon.is_touched,
    );
}

/// Downgrading openings changes outlines only: as many polygons are left, and what was touched
/// still is.
pub proof fn law_downgrading_keeps_touches(
    polygons: Seq<GrowablePolygon>,
    segments: Seq<AngleSegment>,
    downgraded: Seq<GrowablePolygon>,
    i: int,
)
    requires
        segments.len() > 0,
        0 <= i < active_after(polygons, segments, segments.len() as int).len(),
    ensures
        ({
            let active = active_after(polygons, segments, segments.len() as int);
            let left = left_after(polygons, segments, downgraded);
            &&& left.len() == active.len()
            &&& left[i].is_touched == active[i].is_touched
            &&& left[i].vertices == downgraded[i].vertices
            &&& left[i].furthest_opening == downgraded[i].furthest_opening
            &&& left[i].is_created_at_angle_0 == downgraded[i].is_created_at_angle_0
        }),
{
}

/// An angle without any segment leaves all polygons as they are.
pub proof fn law_nothing_is_left_out_without_segments(
    polygons: Seq<GrowablePolygon>,
    downgraded: Seq<GrowablePolygon>,
)
    ensures
        left_after(polygons, Seq::empty(), downgraded) == polygons,
{
}

/// As many polygons are counted as touch a segment.
pub proof fn law_touched_are_counted(touches: Seq<bool>, count: int)
    requires
        0 <= count <= touches.len(),
    ensures
        touched_count(touches, count) == touches.take(count).filter(|touch: bool| touch).len(),
    decreases count,
{
    reveal(Seq::filter);
    if count > 0 {
        law_touched_are_counted(touches, count - 1);
        assert(touches.take(count).drop_last() =~= touches.take(count - 1));
    }
}

/// There is one join for each polygon that touches the segment, in order. The segment itself is
/// joined to a polygon exactly when the one before it is not touched. Otherwise the polygon takes up
/// the first one of the row.
pub proof fn law_every_touched_polygon_is_joined(touches: Seq<bool>, count: int, index: int)
    requires
        0 <= index < count <= touches.len() <= usize::MAX,
        touches[index],
    ensures
        joins_of(touches, count).len() == touched_count(touches, count),
        touched_count(touches, index) < touched_count(touches, count),
        match joins_of(touches, count)[touched_count(touches, index) as int] {
            Join::Segment { base } => base == index && (index == 0 || !touches[index - 1]),
            Join::Polygon { base, joining } => {
                &&& base == index
                &&& joining < index
                &&& forall|i: int| joining <= i <= index ==> #[trigger] touches[i]
                &&& joining == 0 || !touches[joining - 1]
            },
        },
    decreases count,
{
    lemma_as_many_joins_as_touched(touches, count);
    lemma_as_many_joins_as_touched(touches, count - 1);
    if index < count - 1 {
        law_every_touched_polygon_is_joined(touches, count - 1, index);
    } else {
        lemma_joining_starts_row(touches, index);
    }
}

/// There are as many joins as polygons that are touched.
proof fn lemma_as_many_joins_as_touched(touches: Seq<bool>, count: int)
    ensures
        joins_of(touches, count).len() == touched_count(touches, count),
    decreases count,
{
    if count > 0 {
        lemma_as_many_joins_as_touched(touches, count - 1);
    }
}

/// What is taken up is the first one of a row of touched polygons.
proof fn lemma_joining_starts_row(touches: Seq<bool>, index: int)
    requires
        0 <= index <= touches.len() <= usize::MAX,
    ensures
        match joining_polygon(touches, index) {
            Some(joining) => {
                &&& joining < index
                &&& forall|i: int| joining <= i < index ==> #[trigger] touches[i]
                &&& joining == 0 || !touches[joining - 1]
            },
            None => index == 0 || !touches[index - 1],
        },
    decreases index,
{
    if index > 0 {
        lemma_joining_starts_row(touches, index - 1);
    }
}

/// The polygon that a join takes up, if it takes up one.
pub open spec fn taken_up(join: Join) -> Option<usize> {
    match join {
        Join::Segment { .. } => None,
        Join::Polygon { joining, .. } => Some(joining),
    }
}

/// What is to be removed is what is taken up, in order.
pub proof fn law_removed_are_taken_up(touches: Seq<bool>, count: int)
    requires
        0 <= count,
    ensures
        removed_of(touches, count) == joins_of(touches, count).filter_map(
            |join: Join| taken_up(join),
        ),
    decreases count,
{
    reveal(Seq::filter_map);
    if count > 0 {
        law_removed_are_taken_up(touches, count - 1);
        let before = joins_of(touches, count - 1);
        if touches[count - 1] {
            assert(joins_of(touches, count).drop_last() =~= before);
        }
    }
    assert(removed_of(touches, count) =~= joins_of(touches, count).filter_map(
        |join: Join| taken_up(join),
    ));
}

/// Removing one item removes it from its place, and removing some and then others is removing all
/// of them in that order.
pub proof fn law_removals_add_up<A>(
    items: Seq<A>,
    first: Seq<usize>,
    second: Seq<usize>,
    index: usize,
)
    ensures
        without(items, Seq::empty()) == items,
        without(items, seq![index]) == items.remove(index as int),
        without(items, first + second) == without(without(items, first), second),
    decreases second.len(),
{
    assert(seq![index].drop_last() =~= Seq::<usize>::empty());
    if second.len() > 0 {
        law_removals_add_up(items, first, second.drop_last(), index);
        assert((first + second).drop_last() =~= first + second.drop_last());
    } else {
        assert(first + second =~= first);
    }
}

/// There is an error exactly when the openings of some polygon do not belong together, and it is
/// that of the first such polygon.
pub proof fn law_first_error_comes_first(polygons: Seq<GrowablePolygon>, count: int)
    requires
        0 <= count <= polygons.len(),
    ensures
        match first_error(polygons, count) {
            None => forall|i: int|
                0 <= i < count ==> scanned(
                    (#[trigger] polygons[i]).vertices@,
                    polygons[i].vertices@.len() as int,
                ) is Ok,
            Some(error) => exists|i: int|
                #![trigger polygons[i]]
                0 <= i < count && scanned(
                    polygons[i].vertices@,
                    polygons[i].vertices@.len() as int,
                ) == Err::<Seq<FoundOpening>, JoinError>(error) && forall|j: int|
                    0 <= j < i ==> scanned(
                        (#[trigger] polygons[j]).vertices@,
                        polygons[j].vertices@.len() as int,
                    ) is Ok,
        },
    decreases count,
{
    if count > 0 {
        law_first_error_comes_first(polygons, count - 1);
        let last = polygons[count - 1];
        assert(polygons[count - 1] == last);
    }
}

/// Segments cannot be joined exactly when, at the turn of one of them, the openings of some active
/// polygon do not belong together. The first such segment counts.
pub proof fn law_first_segment_fails(
    polygons: Seq<GrowablePolygon>,
    segments: Seq<AngleSegment>,
    count: int,
)
    requires
        0 <= count <= segments.len(),
    ensures
        match error_after(polygons, segments, count) {
            None => forall|k: int|
                0 <= k < count ==> {
                    let active = #[trigger] active_after(polygons, segments, k);
                    first_error(active, active.len() as int) is None
                },
            Some(error) => exists|k: int|
                0 <= k < count && {
                    let active = #[trigger] active_after(polygons, segments, k);
                    first_error(active, active.len() as int) == Some(error)
                } && error_after(polygons, segments, k) is None,
        },
    decreases count,
{
    if count > 0 {
        law_first_segment_fails(polygons, segments, count - 1);
        let active = active_after(polygons, segments, count - 1);
        assert(active == active_after(polygons, segments, count - 1));
    }
}

/// A polygon touches a segment exactly when one of its active openings does.
pub proof fn law_touching_is_by_an_opening(polygon: GrowablePolygon, touching: Seq<bool>)
    requires
        scanned(polygon.vertices@, polygon.vertices@.len() as int) matches Ok(openings)
            && openings.len() == touching.len(),
    ensures
        is_touching(polygon, touching) <==> touching.contains(true),
{
    let openings = scanned(polygon.vertices@, polygon.vertices@.len() as int)->Ok_0;
    lemma_contact_if_touching(openings, touching);
}

/// There is contact exactly where some opening touches.
proof fn lemma_contact_if_touching(openings: Seq<FoundOpening>, touching: Seq<bool>)
    requires
        openings.len() == touching.len(),
    ensures
        crate::vertices::contact_of(openings, touching) is Some <==> touching.contains(true),
    decreases openings.len(),
{
    if openings.len() > 0 {
        lemma_contact_if_touching(openings.drop_last(), touching.drop_last());
        if touching.drop_last().contains(true) {
            let i = choose|i: int| 0 <= i < touching.len() - 1 && touching.drop_last()[i] == true;
            assert(touching[i]);
        }
        if touching.contains(true) && !touching.last() {
            let i = choose|i: int| 0 <= i < touching.len() && touching[i] == true;
            assert(touching.drop_last()[i]);
        }
        if touching.last() {
            assert(touching[touching.len() - 1]);
        }
    }
}

/// A segment that touches nothing leaves all active polygons as they are.
pub proof fn law_untouching_segment_changes_nothing(
    polygons: Seq<GrowablePolygon>,
    segments: Seq<AngleSegment>,
    k: int,
)
    requires
        0 <= k < segments.len(),
        !segment_touches(active_after(polygons, segments, k), segments[k]).contains(true),
    ensures
        active_after(polygons, segments, k + 1) == active_after(polygons, segments, k),
{
    let before = active_after(polygons, segments, k);
    let touches = segment_touches(before, segments[k]);
    assert forall|i: int| 0 <= i < touches.len() implies !#[trigger] touches[i] by {
        if touches[i] {
            assert(touches.contains(true));
        }
    }
    lemma_nothing_removed(touches, touches.len() as int);
    assert(grown_by(all_touched_by(before, touches), touches, segments[k].grown@) =~= before);
}

/// Nothing is removed where nothing is touched.
proof fn lemma_nothing_removed(touches: Seq<bool>, count: int)
    requires
        count <= touches.len(),
        forall|i: int| 0 <= i < touches.len() ==> !#[trigger] touches[i],
    ensures
        removed_of(touches, count) == Seq::<usize>::empty(),
    decreases count,
{
    if count > 0 {
        lemma_nothing_removed(touches, count - 1);
    }
}

/// A segment that touches the polygons of one row leaves one polygon of them: the last one, as it
/// has grown, and it is touched. All others stay as they are.
pub proof fn law_row_becomes_one_polygon(
    polygons: Seq<GrowablePolygon>,
    segments: Seq<AngleSegment>,
    k: int,
    first: int,
    last: int,
)
    requires
        0 <= k < segments.len(),
        active_after(polygons, segments, k).len() <= usize::MAX,
        0 <= first <= last < active_after(polygons, segments, k).len(),
        forall|i: int|
            0 <= i < active_after(polygons, segments, k).len() ==> (#[trigger] segment_touches(
                active_after(polygons, segments, k),
                segments[k],
            )[i] <==> first <= i <= last),
    ensures
        ({
            let before = active_after(polygons, segments, k);
            let grown = GrowablePolygon {
                is_touched: true,
                ..segments[k].grown@[last - first]
            };
            active_after(polygons, segments, k + 1) == before.take(first).push(grown) + before.skip(
                last + 1,
            )
        }),
{
    let before = active_after(polygons, segments, k);
    let touches = segment_touches(before, segments[k]);
    let joined = grown_by(all_touched_by(before, touches), touches, segments[k].grown@);
    law_last_of_a_row_stays(joined, touches, first, last);
    lemma_touched_in_row(touches, first, last, last);
    let grown = GrowablePolygon { is_touched: true, ..segments[k].grown@[last - first] };
    assert(joined[last] == grown);
    assert(joined.take(first) + joined.skip(last) =~= before.take(first).push(grown) + before.skip(
        last + 1,
    ));
}

/// How many are touched before a place in a row.
proof fn lemma_touched_in_row(touches: Seq<bool>, first: int, last: int, count: int)
    requires
        0 <= first <= last < touches.len(),
        0 <= count <= last + 1,
        forall|i: int| 0 <= i < touches.len() ==> (#[trigger] touches[i] <==> first <= i <= last),
    ensures
        touched_count(touches, count) == (if count <= first {
            0
        } else {
            count - first
        }),
    decreases count,
{
    if count > 0 {
        lemma_touched_in_row(touches, first, last, count - 1);
    }
}

/// Polygons are prepared by how far away their openings are, the nearest ones first. None of them
/// is touched, none is lost and none is made up.
pub proof fn law_prepared_go_by_distance(
    polygons: Seq<GrowablePolygon>,
    prepared: Seq<GrowablePolygon>,
)
    requires
        is_prepared(polygons, prepared),
    ensures
        prepared.len() == polygons.len(),
        forall|i: int, j: int|
            0 <= i < j < prepared.len() ==> (#[trigger] prepared[i]).furthest_opening <= (
            #[trigger] prepared[j]).furthest_opening,
        forall|i: int| 0 <= i < prepared.len() ==> !(#[trigger] prepared[i]).is_touched,
        forall|i: int|
            0 <= i < polygons.len() ==> prepared.contains(
                (GrowablePolygon { is_touched: false, ..#[trigger] polygons[i] }),
            ),
{
    let order = choose|order: Seq<int>| #[trigger]
        is_permutation(order, polygons.len() as int) && is_sorted(
            order,
            polygons,
            polygons.len() as int,
        ) && prepared == Seq::new(polygons.len(), |i: int| untouched(polygons[order[i]]));
    assert forall|i: int, j: int| 0 <= i < j < prepared.len() implies (
    #[trigger] prepared[i]).furthest_opening <= (#[trigger] prepared[j]).furthest_opening by {
        assert(polygons[order[i]].furthest_opening <= polygons[order[j]].furthest_opening);
    }
    assert forall|i: int| 0 <= i < polygons.len() implies prepared.contains(
        (GrowablePolygon { is_touched: false, ..#[trigger] polygons[i] }),
    ) by {
        let place = lemma_permutation_has(order, polygons.len() as int, i);
        assert(prepared[place] == untouched(polygons[i]));
    }
}

/// An active opening: a vertex that starts one, right after the vertex that ends it.
pub open spec fn is_opening(vertices: Seq<Vertex>, opening: FoundOpening) -> bool {
    &&& 0 < opening.index < vertices.len()
    &&& vertices[opening.index as int].opening == Opening::Start(opening.start)
    &&& vertices[opening.index - 1].opening == Opening::End(opening.end)
}

/// What is wrong with a vertex, if anything is: a start must come right after an end, and an end
/// right before a start.
pub open spec fn vertex_error(vertices: Seq<Vertex>, index: int) -> Option<JoinError> {
    match vertices[index].opening {
        Opening::Start(_) => if index == 0 {
            Some(JoinError::OpeningWithoutVertex)
        } else if vertices[index - 1].opening is End {
            None
        } else {
            Some(JoinError::StartWithoutEnd)
        },
        Opening::End(_) => if index + 1 < vertices.len() && vertices[index + 1].opening is Start {
            None
        } else {
            Some(JoinError::UnexpectedEnd)
        },
        _ => None,
    }
}

/// All active openings are found, the last one first, unless there is something wrong with a vertex.
/// Of all such vertices the last one counts.
pub proof fn law_scan_finds_all_openings(vertices: Seq<Vertex>)
    requires
        vertices.len() <= usize::MAX,
    ensures
        match scanned(vertices, vertices.len() as int) {
            Ok(openings) => {
                &&& forall|i: int|
                    0 <= i < vertices.len() ==> #[trigger] vertex_error(vertices, i) is None
                &&& forall|opening: FoundOpening| #[trigger]
                    openings.contains(opening) <==> is_opening(vertices, opening)
                &&& forall|j: int, k: int|
                    0 <= j < k < openings.len() ==> (#[trigger] openings[j]).index > (
                    #[trigger] openings[k]).index
            },
            Err(error) => exists|i: int|
                #![trigger vertex_error(vertices, i)]
                0 <= i < vertices.len() && vertex_error(vertices, i) == Some(error) && forall|j: int|
                    i < j < vertices.len() ==> #[trigger] vertex_error(vertices, j) is None,
        },
{
    lemma_scan_of_first(vertices, vertices.len() as int);
}

/// What is found among the first vertices, if what follows them is no start of an opening.
proof fn lemma_scan_of_first(vertices: Seq<Vertex>, count: int)
    requires
        0 <= count <= vertices.len() <= usize::MAX,
        count < vertices.len() ==> !(vertices[count].opening is Start),
    ensures
        match scanned(vertices, count) {
            Ok(openings) => {
                &&& forall|i: int| 0 <= i < count ==> #[trigger] vertex_error(vertices, i) is None
                &&& forall|opening: FoundOpening| #[trigger]
                    openings.contains(opening) <==> is_opening(vertices, opening) && opening.index
                        < count
                &&& forall|j: int, k: int|
                    0 <= j < k < openings.len() ==> (#[trigger] openings[j]).index > (
                    #[trigger] openings[k]).index
            },
            Err(error) => exists|i: int|
                #![trigger vertex_error(vertices, i)]
                0 <= i < count && vertex_error(vertices, i) == Some(error) && forall|j: int|
                    i < j < count ==> #[trigger] vertex_error(vertices, j) is None,
        },
    decreases count,
{
    if count > 0 {
        let last = vertex_error(vertices, count - 1);
        match vertices[count - 1].opening {
            Opening::Start(start) => {
                if count > 1 && vertices[count - 2].opening is End {
                    let end = vertices[count - 2].opening->End_0;
                    let before = vertex_error(vertices, count - 2);
                    assert(before is None);
                    lemma_scan_of_first(vertices, count - 2);
                    if let Ok(rest) = scanned(vertices, count - 2) {
                        let found = FoundOpening { index: (count - 1) as usize, start, end };
                        let openings = seq![found] + rest;
                        assert forall|opening: FoundOpening| #[trigger]
                            openings.contains(opening) <==> is_opening(vertices, opening)
                                && opening.index < count by {
                            if openings.contains(opening) {
                                let k = choose|k: int|
                                    0 <= k < openings.len() && openings[k] == opening;
                                if k > 0 {
                                    assert(rest[k - 1] == opening);
                                    assert(rest.contains(opening));
                                }
                            }
                            if is_opening(vertices, opening) && opening.index < count {
                                if opening.index == count - 1 {
                                    assert(openings[0] == opening);
                                } else {
                                    assert(rest.contains(opening));
                                    let k = choose|k: int|
                                        0 <= k < rest.len() && rest[k] == opening;
                                    assert(openings[k + 1] == opening);
                                }
                            }
                        }
                        assert forall|j: int, k: int| 0 <= j < k < openings.len() implies (
                        #[trigger] openings[j]).index > (#[trigger] openings[k]).index by {
                            assert(openings[k] == rest[k - 1]);
                            assert(rest.contains(rest[k - 1]));
                            if j > 0 {
                                assert(openings[j] == rest[j - 1]);
                            }
                        }
                    }
                }
            },
            Opening::End(_) => {},
            _ => {
                lemma_scan_of_first(vertices, count - 1);
            },
        }
    }
}

/// At its turn, a segment touches polygons, grows those that it touches, and then removes what is
/// taken up. A polygon that is touched becomes the grown one at its place among those that are, and
/// is noted as touched. The others stay as they are.
pub proof fn law_turn_of_segment(
    polygons: Seq<GrowablePolygon>,
    segments: Seq<AngleSegment>,
    k: int,
) -> (joined: Seq<GrowablePolygon>)
    requires
        0 <= k < segments.len(),
    ensures
        ({
            let before = active_after(polygons, segments, k);
            let touches = segment_touches(before, segments[k]);
            let grown = segments[k].grown@;
            &&& joined.len() == before.len() == touches.len()
            &&& forall|i: int|
                0 <= i < before.len() && !touches[i] ==> #[trigger] joined[i] == before[i]
            &&& forall|i: int|
                0 <= i < before.len() && touches[i] ==> {
                    let rank = touches.take(i).filter(|touch: bool| touch).len() as int;
                    &&& (#[trigger] joined[i]).is_touched
                    &&& joined[i].vertices == grown[rank].vertices
                    &&& joined[i].furthest_opening == grown[rank].furthest_opening
                    &&& joined[i].is_created_at_angle_0 == grown[rank].is_created_at_angle_0
                }
            &&& active_after(polygons, segments, k + 1) == without(
                joined,
                removed_of(touches, touches.len() as int),
            )
        }),
{
    let before = active_after(polygons, segments, k);
    let touches = segment_touches(before, segments[k]);
    let joined = grown_by(all_touched_by(before, touches), touches, segments[k].grown@);
    assert forall|i: int| 0 <= i < before.len() && touches[i] implies {
        let rank = touches.take(i).filter(|touch: bool| touch).len() as int;
        &&& (#[trigger] joined[i]).is_touched
        &&& joined[i].vertices == segments[k].grown@[rank].vertices
        &&& joined[i].furthest_opening == segments[k].grown@[rank].furthest_opening
        &&& joined[i].is_created_at_angle_0 == segments[k].grown@[rank].is_created_at_angle_0
    } by {
        law_touched_are_counted(touches, i);
    }
    assert forall|i: int| 0 <= i < before.len() && !touches[i] implies #[trigger] joined[i]
        == before[i] by {}
    joined
}

/// Checking a segment against polygons only notes which ones it touches. What was touched before
/// still is.
pub proof fn law_touching_only_notes_touches(
    polygons: Seq<GrowablePolygon>,
    touches: Seq<bool>,
    i: int,
)
    requires
        0 <= i < polygons.len(),
    ensures
        ({
            let after = all_touched_by(polygons, touches);
            &&& after.len() == polygons.len()
            &&& after[i].is_touched == (polygons[i].is_touched || touches[i])
            &&& after[i].vertices == polygons[i].vertices
            &&& after[i].furthest_opening == polygons[i].furthest_opening
            &&& after[i].is_created_at_angle_0 == polygons[i].is_created_at_angle_0
        }),
{
}

/// A plan joins something exactly when the segment touches some polygon, and it says so.
pub proof fn law_plan_tells_whether_segment_touches(plan: SegmentPlan, touches: Seq<bool>)
    requires
        is_plan_for(plan, touches),
    ensures
        plan.is_segment_touching_anything <==> exists|i: int|
            0 <= i < touches.len() && #[trigger] touches[i],
        plan.is_segment_touching_anything <==> plan.joins@.len() > 0,
        plan.joins@.len() == touches.filter(|touch: bool| touch).len(),
        plan.joined_polygons_to_remove@ == plan.joins@.filter_map(|join: Join| taken_up(join)),
{
    let count = touches.len() as int;
    lemma_as_many_joins_as_touched(touches, count);
    law_touched_are_counted(touches, count);
    law_removed_are_taken_up(touches, count);
    assert(touches.take(count) =~= touches);
    if touches.contains(true) {
        let i = choose|i: int| 0 <= i < touches.len() && touches[i] == true;
        assert(touches[i]);
        lemma_touched_count_rises(touches, i + 1, count);
    } else {
        assert forall|i: int| 0 <= i < touches.len() implies !#[trigger] touches[i] by {
            if touches[i] {
                assert(touches.contains(true));
            }
        }
        lemma_none_touched(touches, count);
    }
}

/// Where nothing is touched, nothing is counted.
proof fn lemma_none_touched(touches: Seq<bool>, count: int)
    requires
        count <= touches.len(),
        forall|i: int| 0 <= i < touches.len() ==> !#[trigger] touches[i],
    ensures
        touched_count(touches, count) == 0,
    decreases count,
{
    if count > 0 {
        lemma_none_touched(touches, count - 1);
    }
}

/// Once an angle is built, every segment whose openings touch no active polygon when it is its turn
/// is one of the active polygons, and as many are added as there are such segments.
pub proof fn law_every_untouched_segment_is_active(
    before: Joiner,
    after: Joiner,
    polygons: Seq<GrowablePolygon>,
    segments: Seq<AngleSegment>,
    downgraded: Seq<GrowablePolygon>,
    plans: Vec<SegmentPlan>,
    k: int,
)
    requires
        is_built(before, after, polygons, segments, downgraded, Ok(plans)),
        0 <= k < segments.len(),
        ({
            let active = active_after(polygons, segments, k);
            forall|i: int|
                0 <= i < active.len() ==> !is_touching(
                    #[trigger] active[i],
                    segments[k].touching@[i]@,
                )
        }),
    ensures
        untouched_places(plans@).contains(k),
        after.active@.contains(segments[k].polygon),
        after.active@.len() == left_after(polygons, segments, downgraded).filter(
            |polygon: GrowablePolygon| polygon.is_touched,
        ).len() + untouched_places(plans@).len(),
{
    let active = active_after(polygons, segments, k);
    let touches = segment_touches(active, segments[k]);
    law_angle_is_built(before, after, polygons, segments, downgraded, plans);
    assert(is_plan_for(plans@[k], touches));
    assert(!touches.contains(true)) by {
        if touches.contains(true) {
            let i = choose|i: int| 0 <= i < touches.len() && touches[i] == true;
            assert(is_touching(active[i], segments[k].touching@[i]@));
        }
    }
    let all = Seq::new(plans@.len(), |k: int| k);
    let pred = |k: int| !plans@[k].is_segment_touching_anything;
    all.lemma_filter_contains(pred, k);
    assert(all[k] == k);
    let places = untouched_places(plans@);
    let added = places.map_values(|k: int| segments[k].polygon);
    let touched = left_after(polygons, segments, downgraded).filter(
        |polygon: GrowablePolygon| polygon.is_touched,
    );
    let place = choose|place: int| 0 <= place < places.len() && places[place] == k;
    assert(added[place] == segments[k].polygon);
    assert(after.active@[touched.len() + place] == segments[k].polygon);
}

/// A segment that touches a polygon when it is its turn becomes no polygon of its own.
pub proof fn law_touching_segments_become_no_polygon(
    plans: Seq<SegmentPlan>,
    polygons: Seq<GrowablePolygon>,
    segments: Seq<AngleSegment>,
    k: int,
    i: int,
)
    requires
        are_plans_for(plans, polygons, segments, segments.len() as int),
        0 <= k < segments.len(),
        0 <= i < active_after(polygons, segments, k).len(),
        is_touching(active_after(polygons, segments, k)[i], segments[k].touching@[i]@),
    ensures
        !untouched_places(plans).contains(k),
{
    let active = active_after(polygons, segments, k);
    let touches = segment_touches(active, segments[k]);
    assert(touches[i]);
    assert(touches.contains(true));
    assert(is_plan_for(plans[k], touches));
    let all = Seq::new(plans.len(), |k: int| k);
    let pred = |k: int| !plans[k].is_segment_touching_anything;
    if untouched_places(plans).contains(k) {
        let place = choose|place: int|
            0 <= place < untouched_places(plans).len() && untouched_places(plans)[place] == k;
        all.lemma_filter_pred(pred, place);
    }
}

} // verus!
