//! The vertices of a viewshed polygon. They have both real-world coordinates and "openings", which
//! are vertices that can join with other "openings".

use vstd::prelude::*;

verus! {

/// A double precision number (IEEE 754 binary64), given by its bit pattern.
#[derive(Debug, Clone, Copy, PartialEq, Eq, Structural)]
pub struct Double(pub u64);

impl Double {
    /// Whether the number is zero, of either sign: nothing but the sign can be set.
    pub open spec fn spec_is_zero(self) -> bool {
        self.0 == 0 || self.0 == 0x8000_0000_0000_0000
    }

    /// Whether the number is zero, of either sign.
    pub fn is_zero(self) -> (zero: bool)
        ensures
            zero == self.spec_is_zero(),
    {
        self.0 == 0 || self.0 == 0x8000_0000_0000_0000
    }
}

/// A point in euclidean space.
#[derive(Debug, Clone, Copy, PartialEq, Eq, Structural)]
pub struct Coord {
    /// The x coordinate.
    pub x: Double,
    /// The y coordinate.
    pub y: Double,
}

/// A vertex is a single point in a polygon.
#[derive(Debug, Clone, Copy, PartialEq, Eq, Structural)]
pub struct Vertex {
    /// The coordinate of the vertex in euclidean space.
    pub coordinate: Coord,
    /// The kind of opening that this vertex represents.
    pub opening: Opening,
}

impl Vertex {
    /// Is the vertex at the centre of the viewshed? The centre is a special place, it is a
    /// zero-length opening that isn't nulled if no segments/polygons touch it for a given angle.
    pub fn is_centre(&self) -> (centre: bool)
        ensures
            centre == (self.coordinate.x.spec_is_zero() && self.coordinate.y.spec_is_zero()),
    {
        self.coordinate.x.is_zero() && self.coordinate.y.is_zero()
    }
}

/// An opening is where one polygon can join a segment, or even another polygon.
/// The `u32` values in the variants are for storing the polar distance from the centre. This saves
/// having to do trigonometry to figure out if two openings are touching.
#[derive(Debug, Clone, Copy, PartialEq, Eq, Structural)]
pub enum Opening {
    /// No opening. We could also just use `Option::None`, but unwrapping it isn't so ergonomic.
    Null,
    /// This is for polygons that start at 0 degrees. It's possible that another polygon (or even
    /// itself), could connect to it at 360 degrees.
    GenesisStart(u32),
    /// The closing of the genesis opening at 0 degrees.
    GenesisEnd(u32),
    /// An active opening's start.
    Start(u32),
    /// An active opening's end.
    End(u32),
    /// When a segment or polygon is successfully attached to an existing polygon, but we still want
    /// to carry on looking for other attachments in the given angle, we don't want to mistakenly
    /// attach new segments/polygons to something that's just been attached. Once the whole angle is
    /// completed, then these get downgraded to the common `Start/End` openings.
    NewStart(u32),
    /// A `New` opening's end.
    NewEnd(u32),
}

/// An active opening of a polygon.
#[derive(Debug, Clone, Copy, PartialEq, Eq, Structural)]
pub struct FoundOpening {
    /// Where the start of the opening is among the vertices. Its end is just before.
    pub index: usize,
    /// The distance at which the opening starts.
    pub start: u32,
    /// The distance at which the opening ends.
    pub end: u32,
}

/// The active openings whose start is among the first `count` vertices, but not among the first two,
/// the last one first.
pub open spec fn openings_of(vertices: Seq<Vertex>, count: int) -> Seq<FoundOpening>
    decreases count,
{
    if count <= 2 {
        Seq::empty()
    } else {
        match (vertices[count - 1].opening, vertices[count - 2].opening) {
            (Opening::Start(start), Opening::End(end)) => seq![
                FoundOpening { index: (count - 1) as usize, start, end },
            ] + openings_of(vertices, count - 2),
            _ => openings_of(vertices, count - 1),
        }
    }
}

/// Whether every start of an opening among the first `count` vertices, the first two aside, has its
/// end just before it, and no end is without a start.
pub open spec fn openings_are_paired(vertices: Seq<Vertex>, count: int) -> bool
    decreases count,
{
    if count <= 2 {
        true
    } else {
        match vertices[count - 1].opening {
            Opening::Start(_) => vertices[count - 2].opening is End && openings_are_paired(
                vertices,
                count - 2,
            ),
            Opening::End(_) => false,
            _ => openings_are_paired(vertices, count - 1),
        }
    }
}

/// Finds start/end vertex pairs for openings.
pub struct OpeningsIterator<'vertices> {
    /// The vertices to scan.
    vertices: &'vertices [Vertex],
    /// The current index of the iterator.
    index: usize,
}

impl<'vertices> OpeningsIterator<'vertices> {
    /// The vertices to scan.
    pub closed spec fn vertices(self) -> Seq<Vertex> {
        self.vertices@
    }

    /// How many vertices are left to scan.
    pub closed spec fn count(self) -> int {
        self.index + 1
    }

    /// Whether the current index is among the vertices, and their openings are in order.
    pub closed spec fn wf(self) -> bool {
        &&& self.index < self.vertices@.len()
        &&& openings_are_paired(self.vertices@, self.index + 1)
    }

    /// Instantiate.
    pub fn new(vertices: &'vertices [Vertex]) -> (iterator: Self)
        requires
            vertices@.len() > 0,
            openings_are_paired(vertices@, vertices@.len() as int),
        ensures
            iterator.wf(),
            iterator.vertices() == vertices@,
            iterator.count() == vertices@.len(),
    {
        OpeningsIterator { vertices, index: vertices.len() - 1 }
    }

    /// The next opening, if there is one left.
    pub fn next(&mut self) -> (opening: Option<FoundOpening>)
        requires
            old(self).wf(),
        ensures
            final(self).wf(),
            final(self).vertices() == old(self).vertices(),
            final(self).count() <= old(self).count(),
            match opening {
                Some(opening) => {
                    &&& final(self).count() < old(self).count()
                    &&& openings_of(old(self).vertices(), old(self).count()) == seq![opening]
                        + openings_of(old(self).vertices(), final(self).count())
                },
                None => openings_of(old(self).vertices(), old(self).count()) == Seq::<
                    FoundOpening,
                >::empty(),
            },
    {
        loop
            invariant
                self.wf(),
                self.vertices() == old(self).vertices(),
                self.count() <= old(self).count(),
                openings_of(self.vertices(), self.count()) == openings_of(
                    old(self).vertices(),
                    old(self).count(),
                ),
            decreases self.index,
        {
            if self.index <= 1 {
                return None;
            }
            let left = self.vertices[self.index].opening;
            let right = self.vertices[self.index - 1].opening;
            if let Opening::Start(start) = left {
                if let Opening::End(end) = right {
                    let opening = FoundOpening { index: self.index, start, end };
                    self.index = self.index - 2;
                    return Some(opening);
                }
            }
            self.index = self.index - 1;
        }
    }
}

/// The vertices between the last opening that touches and the first one that does, of openings of
/// which it is known whether each touches.
pub open spec fn contact_of(openings: Seq<FoundOpening>, touches: Seq<bool>) -> Option<(int, int)>
    decreases openings.len(),
{
    if openings.len() == 0 {
        None
    } else {
        let before = contact_of(openings.drop_last(), touches.drop_last());
        if touches.last() {
            match before {
                Some(range) => Some((openings.last().index as int, range.1)),
                None => Some((openings.last().index as int, openings.last().index as int)),
            }
        } else {
            before
        }
    }
}

/// The vertices that a joining segment or polygon replaces, of a polygon with these openings. There
/// are none, if it does not touch any of the openings.
pub fn contact(openings: &[FoundOpening], touches: &[bool]) -> (range: Option<(usize, usize)>)
    requires
        openings@.len() == touches@.len(),
    ensures
        match range {
            Some((end, start)) => contact_of(openings@, touches@) == Some(
                (end as int, start as int),
            ),
            None => contact_of(openings@, touches@) is None,
        },
{
    let mut maybe_touching: Option<(usize, usize)> = None;
    let mut index: usize = 0;
    while index < openings.len()
        invariant
            openings@.len() == touches@.len(),
            index <= openings@.len(),
            match maybe_touching {
                Some((end, start)) => contact_of(
                    openings@.take(index as int),
                    touches@.take(index as int),
                ) == Some((end as int, start as int)),
                None => contact_of(openings@.take(index as int), touches@.take(index as int)) is None,
            },
        decreases openings@.len() - index,
    {
        proof {
            assert(openings@.take(index + 1).drop_last() =~= openings@.take(index as int));
            assert(touches@.take(index + 1).drop_last() =~= touches@.take(index as int));
        }
        if touches[index] {
            let found: usize = openings[index].index;
            maybe_touching = match maybe_touching {
                Some((_, start)) => Some((found, start)),
                None => Some((found, found)),
            };
        }
        index += 1;
    }
    assert(openings@.take(index as int) =~= openings@);
    assert(touches@.take(index as int) =~= touches@);
    maybe_touching
}

/// All the openings of a polygon, the last one first.
pub fn find_openings(vertices: &[Vertex]) -> (openings: Vec<FoundOpening>)
    requires
        vertices@.len() > 0,
        openings_are_paired(vertices@, vertices@.len() as int),
    ensures
        openings@ == openings_of(vertices@, vertices@.len() as int),
{
    let mut openings: Vec<FoundOpening> = Vec::new();
    let mut iterator = OpeningsIterator::new(vertices);
    loop
        invariant_except_break
            openings@ + openings_of(vertices@, iterator.count()) == openings_of(
                vertices@,
                vertices@.len() as int,
            ),
        invariant
            iterator.wf(),
            iterator.vertices() == vertices@,
        ensures
            openings@ == openings_of(vertices@, vertices@.len() as int),
        decreases iterator.count(),
    {
        let ghost before = openings@;
        let ghost count = iterator.count();
        match iterator.next() {
            Some(opening) => {
                openings.push(opening);
                proof {
                    assert(openings@ + openings_of(vertices@, iterator.count()) =~= before
                        + openings_of(vertices@, count));
                    iterator.lemma_count();
                }
            },
            None => {
                assert(openings@ =~= before + openings_of(vertices@, count));
                break;
            },
        }
    }
    openings
}

impl<'vertices> OpeningsIterator<'vertices> {
    /// There is always a vertex to scan, though it may have no opening.
    proof fn lemma_count(self)
        requires
            self.wf(),
        ensures
            self.count() > 0,
    {
    }
}

/// Check if 2 openings touch: which vertices of a polygon a joining opening is in contact with, by
/// which of its openings touch that one.
pub fn find_contact(vertices: &[Vertex], touches: &[bool]) -> (range: Option<(usize, usize)>)
    requires
        vertices@.len() > 0,
        openings_are_paired(vertices@, vertices@.len() as int),
        touches@.len() == openings_of(vertices@, vertices@.len() as int).len(),
    ensures
        match range {
            Some((end, start)) => contact_of(
                openings_of(vertices@, vertices@.len() as int),
                touches@,
            ) == Some((end as int, start as int)),
            None => contact_of(openings_of(vertices@, vertices@.len() as int), touches@) is None,
        },
{
    let openings = find_openings(vertices);
    contact(openings.as_slice(), touches)
}

/// Openings are found from the last one to the first one.
pub proof fn law_openings_descend(vertices: Seq<Vertex>, count: int, first: int, second: int)
    requires
        0 <= count <= usize::MAX,
        0 <= first < second < openings_of(vertices, count).len(),
    ensures
        openings_of(vertices, count)[first].index > openings_of(vertices, count)[second].index,
        openings_of(vertices, count)[first].index < count,
    decreases count,
{
    match (vertices[count - 1].opening, vertices[count - 2].opening) {
        (Opening::Start(_), Opening::End(_)) => {
            let rest = openings_of(vertices, count - 2);
            if first > 0 {
                law_openings_descend(vertices, count - 2, first - 1, second - 1);
            } else {
                lemma_openings_below(vertices, count - 2, second - 1);
            }
        },
        _ => {
            law_openings_descend(vertices, count - 1, first, second);
        },
    }
}

/// Openings are among the vertices that are scanned.
proof fn lemma_openings_below(vertices: Seq<Vertex>, count: int, which: int)
    requires
        0 <= count <= usize::MAX,
        0 <= which < openings_of(vertices, count).len(),
    ensures
        openings_of(vertices, count)[which].index < count,
    decreases count,
{
    match (vertices[count - 1].opening, vertices[count - 2].opening) {
        (Opening::Start(_), Opening::End(_)) => {
            if which > 0 {
                lemma_openings_below(vertices, count - 2, which - 1);
            }
        },
        _ => {
            lemma_openings_below(vertices, count - 1, which);
        },
    }
}

/// A contact is with openings of the polygon: it starts and ends at openings that touch, and every
/// opening that touches is between them.
pub proof fn law_contact_covers_touches(
    openings: Seq<FoundOpening>,
    touches: Seq<bool>,
    which: int,
)
    requires
        openings.len() == touches.len(),
        forall|j: int, k: int|
            #![trigger openings[j], openings[k]]
            0 <= j < k < openings.len() ==> openings[j].index > openings[k].index,
        0 <= which < openings.len(),
        touches[which],
    ensures
        contact_of(openings, touches) matches Some(range) && range.0 <= openings[which].index
            <= range.1,
    decreases openings.len(),
{
    let (fewer, less) = (openings.drop_last(), touches.drop_last());
    if which < fewer.len() {
        law_contact_covers_touches(fewer, less, which);
        assert(fewer[which] == openings[which]);
    } else {
        lemma_contact_above(fewer, less, openings.last().index as int);
    }
}

/// A contact is no further down than the openings are.
proof fn lemma_contact_above(openings: Seq<FoundOpening>, touches: Seq<bool>, lower: int)
    requires
        openings.len() == touches.len(),
        forall|j: int| 0 <= j < openings.len() ==> (#[trigger] openings[j]).index > lower,
    ensures
        contact_of(openings, touches) matches Some(range) ==> range.0 > lower && range.1 > lower,
    decreases openings.len(),
{
    if openings.len() > 0 {
        lemma_contact_above(openings.drop_last(), touches.drop_last(), lower);
    }
}

/// All active openings are found but those that start at one of the first two vertices: an opening
/// is a vertex that starts one, right after the vertex that ends it.
pub proof fn law_all_openings_are_found(vertices: Seq<Vertex>, count: int, opening: FoundOpening)
    requires
        0 <= count <= vertices.len() <= usize::MAX,
    ensures
        openings_of(vertices, count).contains(opening) <==> 2 <= opening.index < count
            && vertices[opening.index as int].opening == Opening::Start(opening.start)
            && vertices[opening.index - 1].opening == Opening::End(opening.end),
    decreases count,
{
    let found = openings_of(vertices, count);
    if count > 2 {
        match (vertices[count - 1].opening, vertices[count - 2].opening) {
            (Opening::Start(start), Opening::End(end)) => {
                law_all_openings_are_found(vertices, count - 2, opening);
                let rest = openings_of(vertices, count - 2);
                let first = FoundOpening { index: (count - 1) as usize, start, end };
                assert(found == seq![first] + rest);
                if found.contains(opening) {
                    let k = choose|k: int| 0 <= k < found.len() && found[k] == opening;
                    if k > 0 {
                        assert(rest[k - 1] == opening);
                        assert(rest.contains(opening));
                    }
                }
                if rest.contains(opening) {
                    let k = choose|k: int| 0 <= k < rest.len() && rest[k] == opening;
                    assert(found[k + 1] == opening);
                }
                if opening == first {
                    assert(found[0] == opening);
                }
            },
            _ => {
                law_all_openings_are_found(vertices, count - 1, opening);
            },
        }
    }
}

/// There is contact exactly when some opening touches. It goes from the last opening that touches to
/// the first one that does.
pub proof fn law_contact_goes_from_last_to_first(openings: Seq<FoundOpening>, touches: Seq<bool>)
    requires
        openings.len() == touches.len(),
    ensures
        match contact_of(openings, touches) {
            None => forall|i: int| 0 <= i < touches.len() ==> !#[trigger] touches[i],
            Some(range) => exists|first: int, last: int|
                #![trigger touches[first], touches[last]]
                0 <= first <= last < touches.len() && touches[first] && touches[last] && range.0
                    == openings[last].index && range.1 == openings[first].index && (forall|i: int|
                    0 <= i < first || last < i < touches.len() ==> !#[trigger] touches[i]),
        },
    decreases openings.len(),
{
    if openings.len() > 0 {
        let (fewer, less) = (openings.drop_last(), touches.drop_last());
        law_contact_goes_from_last_to_first(fewer, less);
        let end = touches.len() - 1;
        assert(touches[end] == touches.last());
        match contact_of(fewer, less) {
            None => {
                assert forall|i: int| 0 <= i < end implies !#[trigger] touches[i] by {
                    assert(touches[i] == less[i]);
                }
            },
            Some(range) => {
                let (first, last) = choose|first: int, last: int|
                    #![trigger less[first], less[last]]
                    0 <= first <= last < less.len() && less[first] && less[last] && range.0
                        == fewer[last].index && range.1 == fewer[first].index && (forall|i: int|
                        0 <= i < first || last < i < less.len() ==> !#[trigger] less[i]);
                assert(touches[first] == less[first] && touches[last] == less[last]);
                assert forall|i: int| 0 <= i < first || last < i < end implies
                    !#[trigger] touches[i] by {
                    assert(touches[i] == less[i]);
                }
            },
        }
    }
}

/// Zero has no bits but the sign, so there are two of them.
pub proof fn law_zero_has_a_sign_only(number: Double)
    ensures
        number.spec_is_zero() <==> number.0 % 0x8000_0000_0000_0000 == 0,
{
}

} // verus!
