//! What the CUDA kernel needs: where the results of each rotated point go.

use crate::dem;
use vstd::prelude::*;

verus! {

/// The ID in the sub-grid of computable points of a point of the DEM, and -1 for any other.
pub open spec fn result_index(dem_id: int, max_los: int) -> int {
    let x = dem::row_of(dem_id, 3 * max_los) - max_los;
    let y = dem::column_of(dem_id, 3 * max_los) - max_los;
    if 0 <= x < max_los && 0 <= y < max_los {
        dem::index_of(y, x, max_los)
    } else {
        -1
    }
}

/// Results are in the sub-grid, or nowhere.
pub proof fn law_result_in_grid(dem_id: int, max_los: int)
    requires
        0 < max_los,
    ensures
        -1 <= result_index(dem_id, max_los) < max_los * max_los,
{
    let x = dem::row_of(dem_id, 3 * max_los) - max_los;
    let y = dem::column_of(dem_id, 3 * max_los) - max_los;
    assert(0 < max_los * max_los) by (nonlinear_arith)
        requires
            0 < max_los,
    ;
    if 0 <= x < max_los && 0 <= y < max_los {
        assert(0 <= x * max_los + y < max_los * max_los) by (nonlinear_arith)
            requires
                0 <= x < max_los,
                0 <= y < max_los,
        ;
    }
}

/// Whether the point at `index` of a rotation is in the middle third of its row.
pub open spec fn is_in_middle(index: int, max_los: int) -> bool {
    max_los <= dem::column_of(index, 3 * max_los) < 2 * max_los
}

/// Where the results of the first `count` points of a rotation go. Only those in the middle third of
/// each row have any.
pub open spec fn result_indexes_of(rotation: Seq<i32>, max_los: int, count: int) -> Seq<i32>
    decreases count,
{
    if count <= 0 {
        Seq::empty()
    } else if is_in_middle(count - 1, max_los) {
        result_indexes_of(rotation, max_los, count - 1).push(
            result_index(rotation[count - 1] as int, max_los) as i32,
        )
    } else {
        result_indexes_of(rotation, max_los, count - 1)
    }
}

/// Where the results of each point of a rotation go.
pub fn result_indexes(rotation: &[i32], max_los: i32) -> (indexes: Vec<i32>)
    requires
        0 < max_los,
        3 * max_los <= i32::MAX,
        forall|i: int| 0 <= i < rotation@.len() ==> 0 <= #[trigger] rotation@[i],
    ensures
        indexes@ == result_indexes_of(rotation@, max_los as int, rotation@.len() as int),
{
    let width: i32 = 3 * max_los;
    let mut indexes: Vec<i32> = Vec::new();
    let mut index: usize = 0;
    while index < rotation.len()
        invariant
            width == 3 * max_los,
            0 < max_los,
            3 * max_los <= i32::MAX,
            index <= rotation@.len(),
            forall|i: int| 0 <= i < rotation@.len() ==> 0 <= #[trigger] rotation@[i],
            indexes@ == result_indexes_of(rotation@, max_los as int, index as int),
        decreases rotation@.len() - index,
    {
        let column: usize = index % width as usize;
        if max_los as usize <= column && column < 2 * max_los as usize {
            let value: i32 = rotation[index];
            let x: i32 = (value / width) - max_los;
            let y: i32 = (value % width) - max_los;
            if 0 <= x && x < max_los && 0 <= y && y < max_los {
                assert(0 <= x * max_los && x * max_los + y < max_los * max_los)
                    by (nonlinear_arith)
                    requires
                        0 <= x < max_los,
                        0 <= y < max_los,
                ;
                proof {
                    vstd::arithmetic::div_mod::lemma_fundamental_div_mod(value as int, width as int);
                }
                assert(x * max_los + y <= value) by (nonlinear_arith)
                    requires
                        value == width * (value as int / width as int) + value as int % width as int,
                        x == value as int / width as int - max_los,
                        y == value as int % width as int - max_los,
                        width == 3 * max_los,
                        0 <= x < max_los,
                        0 <= y < max_los,
                ;
                indexes.push(x * max_los + y);
            } else {
                indexes.push(-1);
            }
        }
        index += 1;
    }
    indexes
}

/// The sub-grid is the middle third of the DEM in either direction, row by row.
pub proof fn law_results_go_by_rows(dem_id: int, max_los: int)
    requires
        0 < max_los,
    ensures
        ({
            let index = result_index(dem_id, max_los);
            let row = dem_id / (3 * max_los);
            let column = dem_id % (3 * max_los);
            &&& index >= 0 <==> max_los <= row < 2 * max_los && max_los <= column < 2 * max_los
            &&& index < 0 ==> index == -1
            &&& index >= 0 ==> index / max_los == row - max_los && index % max_los == column - max_los
        }),
{
    let x = dem_id / (3 * max_los) - max_los;
    let y = dem_id % (3 * max_los) - max_los;
    law_result_in_grid(dem_id, max_los);
    if 0 <= x < max_los && 0 <= y < max_los {
        dem::law_coordinates_of_index(y, x, max_los);
        assert(0 <= x * max_los) by (nonlinear_arith)
            requires
                0 <= x,
                0 < max_los,
        ;
    }
}

/// There is a result for each point in the middle third of a row, in order.
pub proof fn law_middle_third_has_results(rotation: Seq<i32>, max_los: int, count: int)
    requires
        0 <= count,
    ensures
        result_indexes_of(rotation, max_los, count) == Seq::new(
            count as nat,
            |index: int| index,
        ).filter(
            |index: int| max_los <= index % (3 * max_los) && index % (3 * max_los) < 2 * max_los,
        ).map_values(|index: int| result_index(rotation[index] as int, max_los) as i32),
    decreases count,
{
    reveal(Seq::filter);
    let all = Seq::new(count as nat, |index: int| index);
    if count > 0 {
        law_middle_third_has_results(rotation, max_los, count - 1);
        assert(all.drop_last() =~= Seq::new((count - 1) as nat, |index: int| index));
    }
    assert(result_indexes_of(rotation, max_los, count) =~= all.filter(
        |index: int| max_los <= index % (3 * max_los) && index % (3 * max_los) < 2 * max_los,
    ).map_values(|index: int| result_index(rotation[index] as int, max_los) as i32));
}

} // verus!
