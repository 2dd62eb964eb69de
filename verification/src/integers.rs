//! Whole numbers: Euclidean division, square roots and decimal digits.

use vstd::prelude::*;

verus! {

/// The quotient of a division whose remainder is never negative.
pub fn div_euclid(dividend: i64, divisor: i64) -> (quotient: i64)
    requires
        divisor != 0,
        i64::MIN <= dividend as int / divisor as int <= i64::MAX,
    ensures
        quotient == dividend as int / divisor as int,
{
    dividend.checked_div_euclid(divisor).unwrap()
}

/// The remainder of a division whose remainder is never negative.
pub fn rem_euclid(dividend: i64, divisor: i64) -> (remainder: i64)
    requires
        divisor != 0,
        i64::MIN <= dividend as int / divisor as int <= i64::MAX,
    ensures
        remainder == dividend as int % divisor as int,
{
    proof {
        let (a, b) = (dividend as int, divisor as int);
        assert(0 <= a % b < vstd::math::abs(b)) by (nonlinear_arith)
            requires
                b != 0,
        ;
        if divisor == -1 {
            assert(a / b == -a) by (nonlinear_arith)
                requires
                    b == -1,
            ;
        }
    }
    dividend.checked_rem_euclid(divisor).unwrap()
}

/// Whether `root` is the square root of `square`, rounded down.
pub open spec fn is_square_root(root: int, square: int) -> bool {
    &&& 0 <= root
    &&& root * root <= square
    &&& square < (root + 1) * (root + 1)
}

/// The square root, rounded down.
pub open spec fn square_root(square: int) -> int
    decreases square,
{
    if square <= 0 {
        0
    } else {
        let root = square_root(square - 1);
        if (root + 1) * (root + 1) <= square {
            root + 1
        } else {
            root
        }
    }
}

/// The square root is one.
pub proof fn law_square_root(square: int)
    requires
        0 <= square,
    ensures
        is_square_root(square_root(square), square),
    decreases square,
{
    if square > 0 {
        law_square_root(square - 1);
        let root = square_root(square - 1);
        assert((root + 1) * (root + 1) < (root + 1 + 1) * (root + 1 + 1)) by (nonlinear_arith)
            requires
                root >= 0,
        ;
    }
}

/// A number has one square root only.
pub proof fn law_square_root_unique(left: int, right: int, square: int)
    requires
        is_square_root(left, square),
        is_square_root(right, square),
    ensures
        left == right,
{
    if left < right {
        lemma_square_rises(left + 1, right);
    } else if right < left {
        lemma_square_rises(right + 1, left);
    }
}

/// Squares rise with what is squared.
proof fn lemma_square_rises(few: int, many: int)
    by (nonlinear_arith)
    requires
        0 <= few <= many,
    ensures
        few * few <= many * many,
{
}

/// The square root, rounded down.
pub fn isqrt(square: i64) -> (root: i64)
    requires
        0 <= square,
    ensures
        root == square_root(square as int),
        is_square_root(root as int, square as int),
{
    let mut lower: i64 = 0;
    let mut upper: i64 = 3_037_000_500;
    while upper - lower > 1
        invariant
            0 <= lower < upper <= 3_037_000_500,
            lower * lower <= square < upper * upper,
        decreases upper - lower,
    {
        let middle: i64 = lower + (upper - lower) / 2;
        assert(0 <= middle * middle <= i64::MAX) by (nonlinear_arith)
            requires
                0 <= middle <= 3_037_000_499,
        ;
        if middle * middle <= square {
            lower = middle;
        } else {
            upper = middle;
        }
    }
    assert(upper == lower + 1);
    proof {
        law_square_root(square as int);
        law_square_root_unique(lower as int, square_root(square as int), square as int);
    }
    lower
}

/// The character of a decimal digit.
pub open spec fn digit_char(digit: int) -> char {
    (digit + 48) as char
}

/// The decimal digits of a number, without leading zeroes.
pub open spec fn decimal_digits(number: int) -> Seq<char>
    decreases number,
{
    if number < 10 {
        seq![digit_char(number)]
    } else {
        decimal_digits(number / 10).push(digit_char(number % 10))
    }
}

/// Write down a number.
pub fn decimal(number: u32) -> (text: String)
    ensures
        text@ == decimal_digits(number as int),
    decreases number,
{
    let mut text: String = if number < 10 {
        String::new()
    } else {
        decimal(number / 10)
    };
    let digit: &str = match number % 10 {
        0 => "0",
        1 => "1",
        2 => "2",
        3 => "3",
        4 => "4",
        5 => "5",
        6 => "6",
        7 => "7",
        8 => "8",
        _ => "9",
    };
    proof {
        reveal_strlit("0");
        reveal_strlit("1");
        reveal_strlit("2");
        reveal_strlit("3");
        reveal_strlit("4");
        reveal_strlit("5");
        reveal_strlit("6");
        reveal_strlit("7");
        reveal_strlit("8");
        reveal_strlit("9");
        assert(digit@ =~= seq![digit_char(number as int % 10)]);
    }
    text.append(digit);
    assert(text@ =~= decimal_digits(number as int));
    text
}

/// The sum of the first `count` of some numbers.
pub open spec fn sum(numbers: spec_fn(int) -> int, count: int) -> int
    decreases count,
{
    if count <= 0 {
        0
    } else {
        sum(numbers, count - 1) + numbers(count - 1)
    }
}

/// Sums of the same numbers are the same.
pub proof fn lemma_same_sum(left: spec_fn(int) -> int, right: spec_fn(int) -> int, count: int)
    requires
        forall|i: int| 0 <= i < count ==> #[trigger] left(i) == right(i),
    ensures
        sum(left, count) == sum(right, count),
    decreases count,
{
    if count > 0 {
        lemma_same_sum(left, right, count - 1);
        assert(left(count - 1) == right(count - 1));
    }
}

/// A sum is made up of its numbers: where one number is greater, the sum is greater by as much, and
/// where there are zeros only, it is zero.
pub proof fn law_sum_of_numbers(
    left: spec_fn(int) -> int,
    right: spec_fn(int) -> int,
    count: int,
    place: int,
)
    requires
        0 <= place < count,
        forall|i: int| 0 <= i < count && i != place ==> #[trigger] left(i) == right(i),
    ensures
        sum(left, count) - sum(right, count) == left(place) - right(place),
        (forall|i: int| 0 <= i < count ==> #[trigger] left(i) == 0) ==> sum(left, count) == 0,
    decreases count,
{
    if place < count - 1 {
        law_sum_of_numbers(left, right, count - 1, place);
        assert(left(count - 1) == right(count - 1));
    } else {
        lemma_same_sum(left, right, count - 1);
    }
    if forall|i: int| 0 <= i < count ==> #[trigger] left(i) == 0 {
        lemma_zero_sum(left, count);
    }
}

/// A sum of zeros is zero.
pub proof fn lemma_zero_sum(numbers: spec_fn(int) -> int, count: int)
    requires
        forall|i: int| 0 <= i < count ==> #[trigger] numbers(i) == 0,
    ensures
        sum(numbers, count) == 0,
    decreases count,
{
    if count > 0 {
        lemma_zero_sum(numbers, count - 1);
        assert(numbers(count - 1) == 0);
    }
}

/// The number that some decimal digits stand for.
pub open spec fn value_of_digits(digits: Seq<char>) -> int
    decreases digits.len(),
{
    if digits.len() == 0 {
        0
    } else {
        10 * value_of_digits(digits.drop_last()) + (digits.last() as int - '0' as int)
    }
}

/// Digits stand for the number that was written down. There are no more than it takes.
pub proof fn law_digits_stand_for_number(number: int)
    requires
        0 <= number,
    ensures
        value_of_digits(decimal_digits(number)) == number,
        forall|i: int|
            0 <= i < decimal_digits(number).len() ==> '0' <= #[trigger] decimal_digits(number)[i]
                <= '9',
        decimal_digits(number).len() > 0,
        number > 0 ==> decimal_digits(number)[0] != '0',
    decreases number,
{
    reveal_with_fuel(value_of_digits, 2);
    if number >= 10 {
        law_digits_stand_for_number(number / 10);
        assert(decimal_digits(number).drop_last() =~= decimal_digits(number / 10));
    } else {
        assert(decimal_digits(number).drop_last() =~= Seq::<char>::empty());
    }
}

} // verus!
