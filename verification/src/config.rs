//! What the user can choose.

use vstd::prelude::*;

verus! {

/// Where to run the computations.
#[derive(Clone, Copy, Debug, PartialEq, Eq, Structural)]
pub enum Backend {
    /// A SPIRV shader run on the GPU via Vulkan.
    Vulkan,
    /// Vulkan shader but run on the CPU.
    VulkanCPU,
    /// Optimised cache-efficient CPU kernel
    CPU,
    /// TBC
    Cuda,
}

impl Default for Backend {
    fn default() -> (backend: Self)
        ensures
            backend == Backend::CPU,
    {
        Backend::CPU
    }
}

impl Backend {
    /// Whether all angles are computed in parallel. Otherwise it is one after the other.
    pub fn is_parallel(&self) -> (parallel: bool)
        ensures
            parallel == (*self == Backend::CPU),
    {
        match self {
            Backend::CPU => true,
            _ => false,
        }
    }
}

/// Which calculations to process.
#[derive(Clone, Copy, Debug, PartialEq, Eq, Structural)]
pub enum Process {
    /// Calculate everything.
    All,
    /// Compute the total visible surfaces for each computable DEM point and output as a heatmap.
    TotalSurfaces,
    /// Compute all the ring sectors saving them to disk so that they can be used to later
    /// reconstruct viewsheds.
    Viewsheds,
    /// Compute the longest line of sight for each DEM point.
    LongestLines,
}

/// How to normalise heatmap data.
#[derive(Clone, Copy, Debug, PartialEq, Eq, Structural)]
pub enum HeatmapNormalisation {
    /// Just scale between 0 and 1
    UnitScale,
    /// Scale between 0 and 1 with an exponential factor.
    Exponential,
    /// Use Z-score normalisation based on Welford's algorithm. This basically means that the
    /// data is redistributed such that the mean is 0.5. Useful for overly dark or bright
    /// heatmaps.
    /// <https://en.wikipedia.org/wiki/Algorithms_for_calculating_variance#Welford's_online_algorithm>
    Welford,
}

impl Default for HeatmapNormalisation {
    fn default() -> (normalisation: Self)
        ensures
            normalisation == HeatmapNormalisation::Exponential,
    {
        HeatmapNormalisation::Exponential
    }
}

/// What the user chose that cannot be.
#[derive(Clone, Copy, Debug, PartialEq, Eq, Structural)]
pub enum ConfigError {
    /// There are none, or too many parts of a degree.
    AngleSubdivisions,
    /// There are not two numbers.
    Coordinate,
    /// Viewsheds are to be computed, but there is no support for storing them.
    ViewshedStorage,
}

impl ConfigError {
    /// What to tell the user.
    pub fn message(&self) -> (text: &'static str)
        ensures
            text@ == (match *self {
                ConfigError::AngleSubdivisions => "Angle subdivisions must be between (0, 100]"@,
                ConfigError::Coordinate => "Coordinate must be 2 numbers"@,
                ConfigError::ViewshedStorage => "Viewshed storage is only supported with the ring_data feature, please recompile with --features=ring_data"@,
            }),
    {
        match self {
            ConfigError::AngleSubdivisions => "Angle subdivisions must be between (0, 100]",
            ConfigError::Coordinate => "Coordinate must be 2 numbers",
            ConfigError::ViewshedStorage => "Viewshed storage is only supported with the ring_data feature, please recompile with --features=ring_data",
        }
    }
}

/// Check into how many parts each degree is divided.
///
/// Technically these must be within 3 subdivisions for the longest line of sight packing to work,
/// but if you aren't interested in the longest line this works just fine.
pub fn check_angle_subdivisions(angle_subdivisions: u8) -> (checked: Result<u8, ConfigError>)
    ensures
        checked == (if 0 < angle_subdivisions <= 100 {
            Ok(angle_subdivisions)
        } else {
            Err(ConfigError::AngleSubdivisions)
        }),
{
    if angle_subdivisions > 100 || angle_subdivisions == 0 {
        return Err(ConfigError::AngleSubdivisions);
    }
    Ok(angle_subdivisions)
}

/// Some parts with a comma between each and the next.
pub open spec fn joined(parts: Seq<Seq<char>>) -> Seq<char>
    decreases parts.len(),
{
    if parts.len() == 0 {
        Seq::empty()
    } else if parts.len() == 1 {
        parts[0]
    } else {
        joined(parts.drop_last()).push(',') + parts.last()
    }
}

/// The contents of some strings.
pub open spec fn texts(parts: Seq<String>) -> Seq<Seq<char>> {
    parts.map_values(|part: String| part@)
}

/// Split coordinates at the commas between them.
pub fn split_coords(string: &str) -> (parts: Vec<String>)
    ensures
        parts@.len() > 0,
        joined(texts(parts@)) == string@,
        forall|i: int| 0 <= i < parts@.len() ==> !(#[trigger] parts@[i])@.contains(','),
{
    let mut parts: Vec<String> = Vec::new();
    let mut part: String = String::new();
    let len: usize = string.unicode_len();
    let mut index: usize = 0;
    while index < len
        invariant
            len == string@.len(),
            index <= len,
            !part@.contains(','),
            forall|i: int| 0 <= i < parts@.len() ==> !(#[trigger] parts@[i])@.contains(','),
            joined(texts(parts@).push(part@)) == string@.take(index as int),
        decreases len - index,
    {
        let character: char = string.get_char(index);
        let ghost before = texts(parts@);
        let ghost old_part = part@;
        if character == ',' {
            parts.push(part);
            part = String::new();
            proof {
                assert(texts(parts@) =~= before.push(old_part));
                let next = texts(parts@).push(part@);
                assert(next.drop_last() =~= before.push(old_part));
                assert(joined(next) =~= joined(before.push(old_part)).push(','));
                assert(string@.take(index + 1) =~= string@.take(index as int).push(','));
            }
        } else {
            part.append(string.substring_char(index, index + 1));
            proof {
                assert(part@ =~= old_part.push(character));
                assert(before.push(part@).drop_last() =~= before);
                assert(before.push(old_part).drop_last() =~= before);
                if before.len() == 0 {
                    assert(joined(before.push(part@)) =~= part@);
                    assert(joined(before.push(old_part)) =~= old_part);
                } else {
                    assert(joined(before.push(part@)) =~= joined(before.push(old_part)).push(
                        character,
                    ));
                }
                assert(string@.take(index + 1) =~= string@.take(index as int).push(character));
            }
        }
        index += 1;
    }
    let ghost before = texts(parts@);
    let ghost last = part@;
    parts.push(part);
    proof {
        assert(texts(parts@) =~= before.push(last));
        assert(string@.take(index as int) =~= string@);
    }
    parts
}

/// The two numbers of a coordinate, once the parts were read.
pub fn coordinate_pair<T: Copy>(coordinates: &[T]) -> (pair: Result<(T, T), ConfigError>)
    ensures
        match pair {
            Ok(pair) => coordinates@ == seq![pair.0, pair.1],
            Err(error) => coordinates@.len() != 2 && error == ConfigError::Coordinate,
        },
{
    if coordinates.len() != 2 {
        return Err(ConfigError::Coordinate);
    }
    let pair = (coordinates[0], coordinates[1]);
    assert(coordinates@ =~= seq![pair.0, pair.1]);
    Ok(pair)
}

/// Parts are joined in order: what is joined of two lists has a comma between what is joined of
/// either. One part is joined to itself.
pub proof fn law_parts_are_joined_in_order(left: Seq<Seq<char>>, right: Seq<Seq<char>>)
    requires
        left.len() > 0,
        right.len() > 0,
    ensures
        joined(left + right) == joined(left).push(',') + joined(right),
        joined(left.take(1)) == left[0],
    decreases right.len(),
{
    assert((left + right).drop_last() =~= left + right.drop_last());
    if right.len() == 1 {
        assert(left + right.drop_last() =~= left);
    } else {
        law_parts_are_joined_in_order(left, right.drop_last());
    }
    assert(joined(left + right) =~= joined(left).push(',') + joined(right));
}

/// There is one way only to split at all commas.
pub proof fn law_split_is_unique(left: Seq<Seq<char>>, right: Seq<Seq<char>>)
    requires
        left.len() > 0,
        right.len() > 0,
        joined(left) == joined(right),
        forall|i: int| 0 <= i < left.len() ==> !(#[trigger] left[i]).contains(','),
        forall|i: int| 0 <= i < right.len() ==> !(#[trigger] right[i]).contains(','),
    ensures
        left == right,
    decreases left.len(),
{
    let whole = joined(left);
    let (one, other) = (left.last(), right.last());
    assert(one == left[left.len() - 1] && other == right[right.len() - 1]);
    if left.len() > 1 {
        assert(whole[whole.len() - one.len() - 1] == ',');
    }
    if right.len() > 1 {
        assert(whole[whole.len() - other.len() - 1] == ',');
    }
    if one.len() < other.len() && left.len() > 1 {
        assert(other[other.len() - one.len() - 1] == whole[whole.len() - one.len() - 1]);
        assert(other.contains(','));
    }
    if other.len() < one.len() && right.len() > 1 {
        assert(one[one.len() - other.len() - 1] == whole[whole.len() - other.len() - 1]);
        assert(one.contains(','));
    }
    assert(one.len() <= whole.len() && other.len() <= whole.len());
    assert(one.len() == other.len());
    assert(whole.skip(whole.len() - one.len()) =~= one);
    assert(whole.skip(whole.len() - other.len()) =~= other);
    if left.len() > 1 && right.len() > 1 {
        let (fewer, less) = (left.drop_last(), right.drop_last());
        let rest = whole.take(whole.len() - one.len() - 1);
        assert(rest =~= joined(fewer));
        assert(rest =~= joined(less));
        assert forall|i: int| 0 <= i < fewer.len() implies !(#[trigger] fewer[i]).contains(',') by {
            assert(fewer[i] == left[i]);
        }
        assert forall|i: int| 0 <= i < less.len() implies !(#[trigger] less[i]).contains(',') by {
            assert(less[i] == right[i]);
        }
        law_split_is_unique(fewer, less);
        assert(left =~= fewer.push(one));
        assert(right =~= less.push(other));
    }
    assert(left =~= right);
}

} // verus!
