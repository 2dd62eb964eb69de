//! Code to run before the main computations.

use crate::db::Row;
use crate::dem;
use crate::integers;
use crate::integers::{div_euclid, isqrt, rem_euclid};
use crate::single::Single;
use std::collections::HashMap;
use vstd::prelude::*;

verus! {

broadcast use vstd::std_specs::hash::group_hash_axioms;

/// Why there is no lookup of the biggest viewsheds.
#[derive(Clone, Copy, Debug, PartialEq, Eq, Structural)]
pub enum SubgridError {
    /// It is not known how big a neighbourhood is.
    NoNeighbourhoodSize,
    /// It is not known where the total surfaces are.
    NoSource,
}

impl SubgridError {
    /// What to tell the user.
    pub fn message(&self) -> (text: &'static str)
        ensures
            text@ == (match *self {
                SubgridError::NoNeighbourhoodSize => "Must specify --only-save-biggest-viewsheds"@,
                SubgridError::NoSource => "Must specify --tvs-source-path"@,
            }),
    {
        match self {
            SubgridError::NoNeighbourhoodSize => "Must specify --only-save-biggest-viewsheds",
            SubgridError::NoSource => "Must specify --tvs-source-path",
        }
    }
}

/// What is needed to create a lookup of the biggest viewsheds: the size of a neighbourhood, and
/// where the total surfaces are.
pub fn biggest_tvs_subgrid_options(
    only_save_biggest_viewsheds: Option<u32>,
    tvs_source_path: Option<String>,
) -> (options: Result<(i64, String), SubgridError>)
    ensures
        match options {
            Ok(options) => only_save_biggest_viewsheds == Some(options.0 as u32) && options.0
                == only_save_biggest_viewsheds->0 && tvs_source_path == Some(options.1),
            Err(SubgridError::NoNeighbourhoodSize) => only_save_biggest_viewsheds is None,
            Err(SubgridError::NoSource) => only_save_biggest_viewsheds is Some && tvs_source_path is None,
        },
{
    let size: u32 = match only_save_biggest_viewsheds {
        Some(size) => size,
        None => return Err(SubgridError::NoNeighbourhoodSize),
    };
    match tvs_source_path {
        Some(path) => Ok((size as i64, path)),
        None => Err(SubgridError::NoSource),
    }
}

/// The neighbourhood of a point, where a neighbourhood is a square of the given width.
pub open spec fn neighbourhood_of(index: int, global_width: int, neighbourhood_width: int) -> int {
    dem::index_of(
        dem::column_of(index, global_width) / neighbourhood_width,
        dem::row_of(index, global_width) / neighbourhood_width,
        global_width / neighbourhood_width,
    )
}

/// Find which neighbourhood a given index is in. A neighbourhood is as wide as the square root of
/// its size.
pub fn get_neighbourhood_id(index: i64, global_width: i64, neighbourhood_size: i64) -> (id: i64)
    requires
        global_width != 0,
        neighbourhood_size >= 1,
        i64::MIN <= dem::row_of(index as int, global_width as int) <= i64::MAX,
        ({
            let width = integers::square_root(neighbourhood_size as int);
            let row = dem::row_of(index as int, global_width as int) / width;
            &&& i64::MIN <= row * (global_width as int / width) <= i64::MAX
            &&& i64::MIN <= neighbourhood_of(index as int, global_width as int, width) <= i64::MAX
        }),
    ensures
        id == neighbourhood_of(
            index as int,
            global_width as int,
            integers::square_root(neighbourhood_size as int),
        ),
{
    let global_x: i64 = rem_euclid(index, global_width);
    let global_y: i64 = div_euclid(index, global_width);

    let neighbourhood_width: i64 = isqrt(neighbourhood_size);
    proof {
        let width = neighbourhood_width as int;
        lemma_positive_root(neighbourhood_size as int);
        lemma_quotient_range(global_width as int, width);
        lemma_quotient_range(global_x as int, width);
        lemma_quotient_range(global_y as int, width);
    }
    let neighbourhoods_per_row: i64 = div_euclid(global_width, neighbourhood_width);
    let neighbourhood_x: i64 = div_euclid(global_x, neighbourhood_width);
    let neighbourhood_y: i64 = div_euclid(global_y, neighbourhood_width);
    (neighbourhood_y * neighbourhoods_per_row) + neighbourhood_x
}

/// A positive number has a positive square root.
proof fn lemma_positive_root(square: int)
    requires
        square >= 1,
    ensures
        1 <= integers::square_root(square) <= square,
{
    integers::law_square_root(square);
    let root = integers::square_root(square);
    assert(1 <= root <= square) by (nonlinear_arith)
        requires
            0 <= root,
            root * root <= square < (root + 1) * (root + 1),
            square >= 1,
    ;
}

/// Where neighbourhoods fill the rows exactly, two points are in the same neighbourhood if and only
/// if they are in the same square.
pub proof fn law_neighbourhoods_are_squares(
    left: int,
    right: int,
    global_width: int,
    neighbourhood_width: int,
)
    requires
        0 < neighbourhood_width,
        0 < global_width,
        global_width % neighbourhood_width == 0,
    ensures
        neighbourhood_of(left, global_width, neighbourhood_width) == neighbourhood_of(
            right,
            global_width,
            neighbourhood_width,
        ) <==> {
            &&& dem::column_of(left, global_width) / neighbourhood_width == dem::column_of(
                right,
                global_width,
            ) / neighbourhood_width
            &&& dem::row_of(left, global_width) / neighbourhood_width == dem::row_of(
                right,
                global_width,
            ) / neighbourhood_width
        },
{
    let per_row = global_width / neighbourhood_width;
    let left_x = dem::column_of(left, global_width) / neighbourhood_width;
    let right_x = dem::column_of(right, global_width) / neighbourhood_width;
    let left_y = dem::row_of(left, global_width) / neighbourhood_width;
    let right_y = dem::row_of(right, global_width) / neighbourhood_width;
    lemma_column_in_row(dem::column_of(left, global_width), global_width, neighbourhood_width);
    lemma_column_in_row(dem::column_of(right, global_width), global_width, neighbourhood_width);
    dem::law_coordinates_of_index(left_x, left_y, per_row);
    dem::law_coordinates_of_index(right_x, right_y, per_row);
}

/// No column is beyond the last neighbourhood of a row.
proof fn lemma_column_in_row(column: int, global_width: int, neighbourhood_width: int)
    requires
        0 <= column < global_width,
        0 < neighbourhood_width,
        global_width % neighbourhood_width == 0,
    ensures
        0 <= column / neighbourhood_width < global_width / neighbourhood_width,
{
    vstd::arithmetic::div_mod::lemma_fundamental_div_mod(global_width, neighbourhood_width);
    vstd::arithmetic::div_mod::lemma_fundamental_div_mod(column, neighbourhood_width);
    let per_row = global_width / neighbourhood_width;
    let found = column / neighbourhood_width;
    assert(0 <= found < per_row) by (nonlinear_arith)
        requires
            global_width == neighbourhood_width * per_row,
            column == neighbourhood_width * found + column % neighbourhood_width,
            0 <= column % neighbourhood_width < neighbourhood_width,
            0 <= column < global_width,
            0 < neighbourhood_width,
    ;
}

/// Dividing by a positive number does not lead away from 0.
proof fn lemma_quotient_range(dividend: int, divisor: int)
    requires
        divisor >= 1,
    ensures
        dividend >= 0 ==> 0 <= dividend / divisor <= dividend,
        dividend < 0 ==> dividend <= dividend / divisor <= 0,
{
    assert((dividend >= 0 ==> 0 <= dividend / divisor <= dividend) && (dividend < 0 ==> dividend
        <= dividend / divisor <= 0)) by (nonlinear_arith)
        requires
            divisor >= 1,
    ;
}

/// Convert a TVS ID to a DEM ID.
pub fn tvs_id_to_dem_id(tvs_id: i64, width: i64) -> (dem_id: i64)
    requires
        width != 0,
        i64::MIN <= dem::row_of(tvs_id as int, width as int) <= i64::MAX,
        i64::MIN <= 3 * width <= i64::MAX,
        i64::MIN <= dem::column_of(tvs_id as int, width as int) + width <= i64::MAX,
        i64::MIN <= dem::row_of(tvs_id as int, width as int) + width <= i64::MAX,
        i64::MIN <= (dem::row_of(tvs_id as int, width as int) + width) * (3 * width) <= i64::MAX,
        i64::MIN <= dem::dem_id_of_tvs_id(tvs_id as int, width as int) <= i64::MAX,
    ensures
        dem_id == dem::dem_id_of_tvs_id(tvs_id as int, width as int),
{
    let tvs_x: i64 = rem_euclid(tvs_id, width);
    let tvs_y: i64 = div_euclid(tvs_id, width);
    let dem_x: i64 = tvs_x + width;
    let dem_y: i64 = tvs_y + width;
    let dem_width: i64 = width * 3;
    (dem_y * dem_width) + dem_x
}

/// The DEM ID of the point at `index` of a heatmap with `len` points.
pub open spec fn heatmap_dem_id(len: int, index: int) -> int {
    dem::dem_id_of_tvs_id(index, integers::square_root(len))
}

/// The neighbourhood of the point at `index` of a heatmap with `len` points.
pub open spec fn heatmap_neighbourhood(len: int, neighbourhood_size: int, index: int) -> int {
    neighbourhood_of(
        heatmap_dem_id(len, index),
        3 * integers::square_root(len),
        integers::square_root(neighbourhood_size),
    )
}

/// Whether the point at `index` is the first one of its neighbourhood.
pub open spec fn is_first_in_neighbourhood(len: int, neighbourhood_size: int, index: int) -> bool {
    forall|j: int|
        0 <= j < index ==> #[trigger] heatmap_neighbourhood(len, neighbourhood_size, j)
            != heatmap_neighbourhood(len, neighbourhood_size, index)
}

/// Whether the point at `index` is the biggest one of the first `count` points of its neighbourhood,
/// and the first one that is. A neighbourhood that starts with no number keeps to that.
pub open spec fn is_biggest(
    points: Seq<Single>,
    neighbourhood_size: int,
    count: int,
    index: int,
) -> bool {
    let len = points.len() as int;
    let id = heatmap_neighbourhood(len, neighbourhood_size, index);
    &&& 0 <= index < count
    &&& forall|j: int|
        #![trigger heatmap_neighbourhood(len, neighbourhood_size, j)]
        0 <= j < count && heatmap_neighbourhood(len, neighbourhood_size, j) == id
            ==> !points[j].spec_gt(points[index])
    &&& forall|j: int|
        #![trigger heatmap_neighbourhood(len, neighbourhood_size, j)]
        0 <= j < index && heatmap_neighbourhood(len, neighbourhood_size, j) == id
            ==> points[index].spec_gt(points[j]) || (points[j].spec_is_nan()
            && !is_first_in_neighbourhood(len, neighbourhood_size, j))
}

/// Whether `biggest` tells of the first `count` points for each neighbourhood which one is biggest.
pub open spec fn are_biggest(
    biggest: Map<i64, i64>,
    points: Seq<Single>,
    neighbourhood_size: int,
    count: int,
) -> bool {
    let len = points.len() as int;
    &&& forall|j: int|
        0 <= j < count ==> biggest.contains_key(
            #[trigger] heatmap_neighbourhood(len, neighbourhood_size, j) as i64,
        )
    &&& forall|id: i64| #[trigger]
        biggest.contains_key(id) ==> exists|index: int|
            #![trigger heatmap_dem_id(len, index)]
            is_biggest(points, neighbourhood_size, count, index) && heatmap_neighbourhood(
                len,
                neighbourhood_size,
                index,
            ) == id && heatmap_dem_id(len, index) == biggest[id]
}

/// Whether `contenders` holds the points that `biggest` tells of.
spec fn are_contenders(
    contenders: Map<i64, Single>,
    biggest: Map<i64, i64>,
    points: Seq<Single>,
    neighbourhood_size: int,
    count: int,
) -> bool {
    let len = points.len() as int;
    &&& contenders.dom() == biggest.dom()
    &&& forall|id: i64| #[trigger]
        biggest.contains_key(id) ==> exists|index: int|
            #![trigger heatmap_dem_id(len, index)]
            is_biggest(points, neighbourhood_size, count, index) && heatmap_neighbourhood(
                len,
                neighbourhood_size,
                index,
            ) == id && heatmap_dem_id(len, index) == biggest[id] && contenders[id] == points[index]
}

/// The IDs of points of a heatmap, and of their neighbourhoods, are no more than a few times the
/// number of points.
proof fn lemma_heatmap_ids(len: int, neighbourhood_size: int, index: int)
    requires
        0 <= index < len,
        neighbourhood_size >= 1,
    ensures
        1 <= integers::square_root(len) <= len,
        ({
            let width = integers::square_root(len);
            let column = dem::column_of(index, width);
            let row = dem::row_of(index, width);
            &&& 0 <= column < width
            &&& 0 <= row <= width + 2
            &&& 0 <= (row + width) * (3 * width) <= heatmap_dem_id(len, index)
        }),
        0 <= heatmap_dem_id(len, index) <= 14 * len,
        ({
            let width = integers::square_root(neighbourhood_size);
            let global_width = 3 * integers::square_root(len);
            let row = dem::row_of(heatmap_dem_id(len, index), global_width);
            &&& 0 <= row <= heatmap_dem_id(len, index)
            &&& 0 <= row / width * (global_width / width) <= heatmap_dem_id(len, index)
        }),
        0 <= heatmap_neighbourhood(len, neighbourhood_size, index) <= heatmap_dem_id(len, index),
{
    let width = integers::square_root(len);
    lemma_positive_root(len);
    integers::law_square_root(len);
    dem::law_index_of_coordinates(index, width);
    let column = dem::column_of(index, width);
    let row = dem::row_of(index, width);
    assert(0 <= row <= width + 2) by (nonlinear_arith)
        requires
            row * width + column == index,
            0 <= column < width,
            0 <= index < (width + 1) * (width + 1),
            1 <= width,
    ;
    let dem_id = heatmap_dem_id(len, index);
    assert(0 <= (row + width) * (3 * width)) by (nonlinear_arith)
        requires
            0 <= row,
            0 <= width,
    ;
    assert((row + width) * (3 * width) + (column + width) <= 14 * (width * width))
        by (nonlinear_arith)
        requires
            0 <= row <= width + 2,
            0 <= column < width,
            1 <= width,
    ;
    lemma_neighbourhood_range(
        dem_id,
        3 * width,
        integers::square_root(neighbourhood_size),
        neighbourhood_size,
    );
}

/// Find the biggest surface areas within a subgrid of a computed TVS heatmap: for each
/// neighbourhood the DEM ID of its biggest point.
pub fn find_biggest_total_surfaces(points: &[Single], neighbourhood_size: i64) -> (biggest: HashMap<
    i64,
    i64,
>)
    requires
        points@.len() > 0 ==> neighbourhood_size >= 1,
        points@.len() <= 0x800_0000_0000_0000,
    ensures
        are_biggest(biggest@, points@, neighbourhood_size as int, points@.len() as int),
{
    let mut hashmap: HashMap<i64, i64> = HashMap::new();
    let mut contenders: HashMap<i64, Single> = HashMap::new();
    let len: usize = points.len();
    let width: i64 = isqrt(len as i64);
    let ghost size = neighbourhood_size as int;
    let mut index: usize = 0;
    while index < len
        invariant
            index <= len == points@.len(),
            len <= 0x800_0000_0000_0000,
            size == neighbourhood_size,
            len > 0 ==> size >= 1,
            width == integers::square_root(len as int),
            are_biggest(hashmap@, points@, size, index as int),
            are_contenders(contenders@, hashmap@, points@, size, index as int),
        decreases len - index,
    {
        let point = points[index];
        let ghost old_hashmap = hashmap@;
        let ghost old_contenders = contenders@;
        proof {
            lemma_heatmap_ids(len as int, size, index as int);
        }
        let dem_id: i64 = tvs_id_to_dem_id(index as i64, width);
        let neighbourhood_id: i64 = get_neighbourhood_id(dem_id, width * 3, neighbourhood_size);
        let bigger: bool = match contenders.get(&neighbourhood_id) {
            Some(contender) => point.gt(*contender),
            None => true,
        };
        proof {
            lemma_next_contender(
                old_contenders,
                old_hashmap,
                points@,
                size,
                index as int,
                neighbourhood_id,
                dem_id,
                bigger,
            );
        }
        if bigger {
            contenders.insert(neighbourhood_id, point);
            hashmap.insert(neighbourhood_id, dem_id);
        }
        index += 1;
    }
    hashmap
}

/// One more point keeps the contenders in order.
proof fn lemma_next_contender(
    contenders: Map<i64, Single>,
    biggest: Map<i64, i64>,
    points: Seq<Single>,
    size: int,
    count: int,
    id: i64,
    dem_id: i64,
    bigger: bool,
)
    requires
        size >= 1,
        0 <= count < points.len() <= 0x800_0000_0000_0000,
        are_biggest(biggest, points, size, count),
        are_contenders(contenders, biggest, points, size, count),
        id == heatmap_neighbourhood(points.len() as int, size, count),
        dem_id == heatmap_dem_id(points.len() as int, count),
        bigger == (!contenders.contains_key(id) || points[count].spec_gt(contenders[id])),
    ensures
        bigger ==> {
            &&& are_biggest(biggest.insert(id, dem_id), points, size, count + 1)
            &&& are_contenders(
                contenders.insert(id, points[count]),
                biggest.insert(id, dem_id),
                points,
                size,
                count + 1,
            )
        },
        !bigger ==> {
            &&& are_biggest(biggest, points, size, count + 1)
            &&& are_contenders(contenders, biggest, points, size, count + 1)
        },
{
    let len = points.len() as int;
    let new_biggest = if bigger {
        biggest.insert(id, dem_id)
    } else {
        biggest
    };
    let new_contenders = if bigger {
        contenders.insert(id, points[count])
    } else {
        contenders
    };
    assert(contenders.contains_key(id) == biggest.contains_key(id));
    assert forall|j: int| 0 <= j < count implies 0 <= #[trigger] heatmap_neighbourhood(len, size, j)
        <= i64::MAX by {
        lemma_heatmap_ids(len, size, j);
    }
    assert forall|key: i64| #[trigger] new_biggest.contains_key(key) implies exists|index: int|
        #![trigger heatmap_dem_id(len, index)]
        is_biggest(points, size, count + 1, index) && heatmap_neighbourhood(len, size, index) == key
            && heatmap_dem_id(len, index) == new_biggest[key] && new_contenders[key]
            == points[index] by {
        if key == id && bigger {
            if biggest.contains_key(id) {
                let old_index = choose|index: int|
                    #![trigger heatmap_dem_id(len, index)]
                    is_biggest(points, size, count, index) && heatmap_neighbourhood(
                        len,
                        size,
                        index,
                    ) == id && heatmap_dem_id(len, index) == biggest[id] && contenders[id]
                        == points[index];
                assert(is_biggest(points, size, count, old_index));
                assert forall|j: int|
                    #![trigger heatmap_neighbourhood(len, size, j)]
                    0 <= j < count && heatmap_neighbourhood(len, size, j)
                        == id implies points[count].spec_gt(points[j]) || (points[j].spec_is_nan()
                    && !is_first_in_neighbourhood(len, size, j)) by {
                    if points[j].spec_is_nan() && is_first_in_neighbourhood(len, size, j) {
                        assert(heatmap_neighbourhood(len, size, old_index) == id);
                        assert(j <= old_index);
                    }
                }
            } else {
                assert forall|j: int| 0 <= j < count implies #[trigger] heatmap_neighbourhood(
                    len,
                    size,
                    j,
                ) != id by {
                    assert(biggest.contains_key(heatmap_neighbourhood(len, size, j) as i64));
                }
            }
            assert(is_biggest(points, size, count + 1, count));
            assert(heatmap_dem_id(len, count) == new_biggest[key]);
        } else {
            assert(biggest.contains_key(key));
            let index = choose|index: int|
                #![trigger heatmap_dem_id(len, index)]
                is_biggest(points, size, count, index) && heatmap_neighbourhood(len, size, index)
                    == key && heatmap_dem_id(len, index) == biggest[key] && contenders[key]
                    == points[index];
            assert(is_biggest(points, size, count + 1, index));
            assert(heatmap_dem_id(len, index) == new_biggest[key]);
        }
    }
    assert(new_contenders.dom() =~= new_biggest.dom());
    assert(are_contenders(new_contenders, new_biggest, points, size, count + 1));
    assert forall|j: int| 0 <= j < count + 1 implies new_biggest.contains_key(
        #[trigger] heatmap_neighbourhood(len, size, j) as i64,
    ) by {
        if j < count {
            assert(biggest.contains_key(heatmap_neighbourhood(len, size, j) as i64));
        }
    }
    assert(are_biggest(new_biggest, points, size, count + 1));
}

/// A neighbourhood has one biggest point only.
pub proof fn law_biggest_unique(
    points: Seq<Single>,
    neighbourhood_size: int,
    left: int,
    right: int,
)
    requires
        is_biggest(points, neighbourhood_size, points.len() as int, left),
        is_biggest(points, neighbourhood_size, points.len() as int, right),
        heatmap_neighbourhood(points.len() as int, neighbourhood_size, left)
            == heatmap_neighbourhood(points.len() as int, neighbourhood_size, right),
    ensures
        left == right,
{
    let len = points.len() as int;
    if left < right {
        lemma_not_two_biggest(points, neighbourhood_size, left, right);
    } else if right < left {
        lemma_not_two_biggest(points, neighbourhood_size, right, left);
    }
}

/// No point after the biggest one is the biggest one.
proof fn lemma_not_two_biggest(points: Seq<Single>, size: int, left: int, right: int)
    requires
        is_biggest(points, size, points.len() as int, left),
        0 <= left < right < points.len(),
        heatmap_neighbourhood(points.len() as int, size, left) == heatmap_neighbourhood(
            points.len() as int,
            size,
            right,
        ),
    ensures
        !is_biggest(points, size, points.len() as int, right),
{
    let len = points.len() as int;
    let id = heatmap_neighbourhood(len, size, left);
    if is_biggest(points, size, len, right) {
        assert(points[left].spec_is_nan() && !is_first_in_neighbourhood(len, size, left));
        let first = choose|j: int|
            0 <= j < left && #[trigger] heatmap_neighbourhood(len, size, j) == id;
        assert(!points[left].spec_gt(points[first]));
        let earliest = lemma_first_of(points, size, first);
        assert(!points[left].spec_gt(points[earliest]));
    }
}

/// A neighbourhood has a first point.
proof fn lemma_first_of(points: Seq<Single>, size: int, index: int) -> (first: int)
    requires
        0 <= index,
    ensures
        0 <= first <= index,
        heatmap_neighbourhood(points.len() as int, size, first) == heatmap_neighbourhood(
            points.len() as int,
            size,
            index,
        ),
        is_first_in_neighbourhood(points.len() as int, size, first),
    decreases index,
{
    let len = points.len() as int;
    if is_first_in_neighbourhood(len, size, index) {
        index
    } else {
        let earlier = choose|j: int|
            0 <= j < index && #[trigger] heatmap_neighbourhood(len, size, j)
                == heatmap_neighbourhood(len, size, index);
        lemma_first_of(points, size, earlier)
    }
}

/// The neighbourhood that a point is the biggest one of, if it is.
pub open spec fn saved_as(
    viewsheds_to_save: Map<i64, i64>,
    dem_id: int,
    global_width: int,
    neighbourhood_size: int,
) -> Option<i64> {
    let id = neighbourhood_of(
        dem_id,
        global_width,
        integers::square_root(neighbourhood_size),
    ) as i64;
    if viewsheds_to_save.contains_key(id) && viewsheds_to_save[id] == dem_id {
        Some(id)
    } else {
        None
    }
}

/// The neighbourhood that a point is the biggest one of, if it is. Only those points have their
/// viewsheds saved.
pub fn saved_neighbourhood(
    viewsheds_to_save: &HashMap<i64, i64>,
    dem_id: i64,
    global_width: i64,
    neighbourhood_size: i64,
) -> (saved: Option<i64>)
    requires
        global_width > 0,
        dem_id >= 0,
        neighbourhood_size >= 1,
    ensures
        saved == saved_as(
            viewsheds_to_save@,
            dem_id as int,
            global_width as int,
            neighbourhood_size as int,
        ),
{
    proof {
        lemma_neighbourhood_range(
            dem_id as int,
            global_width as int,
            integers::square_root(neighbourhood_size as int),
            neighbourhood_size as int,
        );
    }
    let id: i64 = get_neighbourhood_id(dem_id, global_width, neighbourhood_size);
    match viewsheds_to_save.get(&id) {
        Some(biggest) => if *biggest == dem_id {
            Some(id)
        } else {
            None
        },
        None => None,
    }
}

/// Those of the first `count` rows that are of the biggest viewshed of a neighbourhood, each with
/// its neighbourhood.
pub open spec fn saved_rows(
    rows: Seq<Row>,
    viewsheds_to_save: Map<i64, i64>,
    global_width: int,
    neighbourhood_size: int,
    count: int,
) -> Seq<Row>
    decreases count,
{
    if count <= 0 {
        Seq::empty()
    } else {
        let before = saved_rows(
            rows,
            viewsheds_to_save,
            global_width,
            neighbourhood_size,
            count - 1,
        );
        let row = rows[count - 1];
        match saved_as(viewsheds_to_save, row.dem_id as int, global_width, neighbourhood_size) {
            Some(id) => before.push(Row { neighbourhood_id: Some(id), ..row }),
            None => before,
        }
    }
}

/// Keep the rows that are of the biggest viewshed of a neighbourhood, and note the neighbourhood.
pub fn rows_to_save(
    rows: Vec<Row>,
    viewsheds_to_save: &HashMap<i64, i64>,
    global_width: i64,
    neighbourhood_size: i64,
) -> (saved: Vec<Row>)
    requires
        global_width > 0,
        neighbourhood_size >= 1,
        forall|i: int| 0 <= i < rows@.len() ==> 0 <= (#[trigger] rows@[i]).dem_id,
    ensures
        saved@ == saved_rows(
            rows@,
            viewsheds_to_save@,
            global_width as int,
            neighbourhood_size as int,
            rows@.len() as int,
        ),
{
    let ghost all = rows@;
    let mut left = rows;
    let mut saved: Vec<Row> = Vec::new();
    let mut index: usize = 0;
    while index < left.len()
        invariant
            global_width > 0,
            neighbourhood_size >= 1,
            index <= left@.len() == all.len(),
            forall|i: int| 0 <= i < all.len() ==> 0 <= (#[trigger] all[i]).dem_id,
            forall|i: int| index <= i < all.len() ==> #[trigger] left@[i] == all[i],
            saved@ == saved_rows(
                all,
                viewsheds_to_save@,
                global_width as int,
                neighbourhood_size as int,
                index as int,
            ),
        decreases left@.len() - index,
    {
        assert(left@[index as int] == all[index as int]);
        let dem_id: i64 = left[index].dem_id;
        let neighbourhood_id = saved_neighbourhood(
            viewsheds_to_save,
            dem_id,
            global_width,
            neighbourhood_size,
        );
        if neighbourhood_id.is_some() {
            let mut visible_segments: Vec<u8> = Vec::new();
            let angle_id: u16 = left[index].angle_id;
            std::mem::swap(&mut visible_segments, &mut left[index].visible_segments);
            saved.push(Row { dem_id, neighbourhood_id, angle_id, visible_segments });
        }
        index += 1;
    }
    saved
}

/// There are no more neighbourhoods than points.
pub proof fn lemma_neighbourhood_range(index: int, global_width: int, width: int, size: int)
    requires
        0 <= index,
        0 < global_width,
        1 <= size,
        width == integers::square_root(size),
    ensures
        ({
            let row = dem::row_of(index, global_width);
            &&& 0 <= row <= index
            &&& 0 <= row / width * (global_width / width) <= index
        }),
        0 <= neighbourhood_of(index, global_width, width) <= index,
{
    lemma_positive_root(size);
    dem::law_index_of_coordinates(index, global_width);
    let global_x = dem::column_of(index, global_width);
    let global_y = dem::row_of(index, global_width);
    assert(0 <= global_y <= index) by (nonlinear_arith)
        requires
            global_y * global_width + global_x == index,
            0 <= global_x < global_width,
            0 <= index,
    ;
    lemma_quotient_range(global_x, width);
    lemma_quotient_range(global_y, width);
    lemma_quotient_range(global_width, width);
    let per_row = global_width / width;
    let y = global_y / width;
    assert(0 <= y * per_row <= global_y * global_width) by (nonlinear_arith)
        requires
            0 <= y <= global_y,
            0 <= per_row <= global_width,
    ;
}

/// Neighbourhoods are numbered row by row: one neighbourhood to the right is the next number, and one
/// neighbourhood down is as many numbers further as there are neighbourhoods in a row.
pub proof fn law_neighbourhoods_are_numbered_by_rows(
    index: int,
    global_width: int,
    neighbourhood_width: int,
)
    requires
        0 < neighbourhood_width,
        0 < global_width,
    ensures
        neighbourhood_of(0, global_width, neighbourhood_width) == 0,
        index % global_width + neighbourhood_width < global_width ==> neighbourhood_of(
            index + neighbourhood_width,
            global_width,
            neighbourhood_width,
        ) == neighbourhood_of(index, global_width, neighbourhood_width) + 1,
        neighbourhood_of(
            index + neighbourhood_width * global_width,
            global_width,
            neighbourhood_width,
        ) == neighbourhood_of(index, global_width, neighbourhood_width) + global_width
            / neighbourhood_width,
{
    let column = index % global_width;
    let row = index / global_width;
    let per_row = global_width / neighbourhood_width;
    dem::law_index_of_coordinates(index, global_width);
    dem::law_coordinates_of_index(0, 0, global_width);
    dem::law_coordinates_of_index(0, 0, neighbourhood_width);
    assert(0 * per_row == 0) by (nonlinear_arith);
    assert(0 * global_width == 0) by (nonlinear_arith);
    assert(0 * neighbourhood_width == 0) by (nonlinear_arith);
    if column + neighbourhood_width < global_width {
        dem::law_coordinates_of_index(column + neighbourhood_width, row, global_width);
        lemma_one_more(column, neighbourhood_width);
    }
    assert((row + neighbourhood_width) * global_width == row * global_width + neighbourhood_width
        * global_width) by (nonlinear_arith);
    dem::law_coordinates_of_index(column, row + neighbourhood_width, global_width);
    lemma_one_more(row, neighbourhood_width);
    assert((row / neighbourhood_width + 1) * per_row == row / neighbourhood_width * per_row + per_row)
        by (nonlinear_arith);
}

/// One divisor more is one more in the quotient.
proof fn lemma_one_more(dividend: int, divisor: int)
    requires
        0 < divisor,
    ensures
        (dividend + divisor) / divisor == dividend / divisor + 1,
{
    dem::law_index_of_coordinates(dividend, divisor);
    let (quotient, rest) = (dividend / divisor, dividend % divisor);
    assert((quotient + 1) * divisor == quotient * divisor + divisor) by (nonlinear_arith);
    dem::law_coordinates_of_index(rest, quotient + 1, divisor);
}

/// The biggest point of a neighbourhood is as big as any of its points, and bigger than all of them
/// that come before it.
pub proof fn law_biggest_is_biggest(
    points: Seq<Single>,
    neighbourhood_size: int,
    count: int,
    index: int,
    other: int,
)
    requires
        is_biggest(points, neighbourhood_size, count, index),
        0 <= other < count,
        heatmap_neighbourhood(points.len() as int, neighbourhood_size, other)
            == heatmap_neighbourhood(points.len() as int, neighbourhood_size, index),
        !points[index].spec_is_nan(),
        !points[other].spec_is_nan(),
    ensures
        points[other].order() <= points[index].order(),
        other < index ==> points[other].order() < points[index].order(),
{
}

/// The rows that are saved are exactly those of points that are the biggest of their neighbourhood,
/// in order, with nothing changed but the neighbourhood that is noted.
pub proof fn law_saved_rows_are_of_biggest(
    rows: Seq<Row>,
    viewsheds_to_save: Map<i64, i64>,
    global_width: int,
    neighbourhood_size: int,
    count: int,
)
    requires
        0 <= count <= rows.len(),
    ensures
        saved_rows(rows, viewsheds_to_save, global_width, neighbourhood_size, count) == rows.take(
            count,
        ).filter_map(
            |row: Row|
                {
                    let id = neighbourhood_of(
                        row.dem_id as int,
                        global_width,
                        integers::square_root(neighbourhood_size),
                    ) as i64;
                    if viewsheds_to_save.contains_pair(id, row.dem_id) {
                        Some(Row { neighbourhood_id: Some(id), ..row })
                    } else {
                        None
                    }
                },
        ),
    decreases count,
{
    reveal(Seq::filter_map);
    let keep = |row: Row|
        {
            let id = neighbourhood_of(
                row.dem_id as int,
                global_width,
                integers::square_root(neighbourhood_size),
            ) as i64;
            if viewsheds_to_save.contains_pair(id, row.dem_id) {
                Some(Row { neighbourhood_id: Some(id), ..row })
            } else {
                None
            }
        };
    if count > 0 {
        law_saved_rows_are_of_biggest(
            rows,
            viewsheds_to_save,
            global_width,
            neighbourhood_size,
            count - 1,
        );
        assert(rows.take(count).drop_last() =~= rows.take(count - 1));
    }
    assert(saved_rows(rows, viewsheds_to_save, global_width, neighbourhood_size, count)
        =~= rows.take(count).filter_map(keep));
}

/// The points of a heatmap are the middle third of the DEM, row by row, and their neighbourhoods are
/// those of the DEM.
pub proof fn law_heatmap_is_in_the_middle(root: int, neighbourhood_size: int, index: int)
    requires
        1 <= root,
        1 <= neighbourhood_size,
        0 <= index,
    ensures
        ({
            let len = root * root;
            let width = integers::square_root(neighbourhood_size);
            let column = index % root + root;
            let row = index / root + root;
            &&& heatmap_dem_id(len, index) == row * (3 * root) + column
            &&& heatmap_neighbourhood(len, neighbourhood_size, index) == row / width * (3 * root
                / width) + column / width
        }),
{
    let len = root * root;
    integers::law_square_root(len);
    assert(root * root < (root + 1) * (root + 1)) by (nonlinear_arith)
        requires
            1 <= root,
    ;
    integers::law_square_root_unique(root, integers::square_root(len), len);
    dem::law_dem_id_goes_by_rows(index, root);
    dem::law_index_of_coordinates(heatmap_dem_id(len, index), 3 * root);
}

} // verus!
