//! Records produced by a scan: one per scored file, and one summary per target.
use crate::stats::{
    entropy_values, interquartile_range, iqr_of, mean, median, median_of, variance,
    Ratio,
};
use vstd::prelude::*;

verus! {

/// Fixed-point scale of every entropy value: an entropy of `e` units stands for
/// `e / ENTROPY_UNITS_PER_BIT` bits.
pub const ENTROPY_UNITS_PER_BIT: u32 = 65536;

/// The sum of a sequence of fixed-point values.
pub open spec fn sum_of(s: Seq<u32>) -> int
    decreases s.len(),
{
    if s.len() == 0 {
        0
    } else {
        sum_of(s.drop_last()) + s.last()
    }
}

/// The sum of the squares of a sequence of fixed-point values.
pub open spec fn sum_of_squares(s: Seq<u32>) -> int
    decreases s.len(),
{
    if s.len() == 0 {
        0
    } else {
        sum_of_squares(s.drop_last()) + s.last() * s.last()
    }
}

/// The entropy of one scanned file, in fixed-point units.
#[derive(Clone, Debug)]
pub struct FileEntropy {
    pub path: String,
    pub entropy: u32,
}

impl FileEntropy {
    pub fn new(path: String, entropy: u32) -> (r: FileEntropy)
        ensures
            r.path == path,
            r.entropy == entropy,
    {
        FileEntropy { path, entropy }
    }

    /// A copy of this record, field for field.
    pub fn duplicate(&self) -> (r: FileEntropy)
        ensures
            r == *self,
    {
        FileEntropy { path: self.path.clone(), entropy: self.entropy }
    }
}

/// The summary of one scan target. `total` counts the files that were found,
/// `scored` those that were scored; the aggregates cover the scored ones only.
#[derive(Clone, Debug)]
pub struct Stats {
    pub target: String,
    pub total: usize,
    pub scored: usize,
    pub mean: Ratio,
    pub median: Ratio,
    pub variance: Ratio,
    pub iqr: u32,
}

impl Stats {
    /// Summarizes the scored records `data` of a target where `total` files were
    /// found; `None` when nothing was scored.
    pub fn summarize(target: String, total: usize, data: &[FileEntropy]) -> (r: Option<Stats>)
        requires
            data@.len() != 2,
            data@.len() <= u32::MAX,
        ensures
            data@.len() == 0 ==> r is None,
            data@.len() > 0 ==> (r matches Some(st) && {
                let s = entropy_values(data@);
                let n = data@.len() as int;
                &&& st.target == target
                &&& st.total == total
                &&& st.scored == n
                &&& st.mean.num == sum_of(s) && st.mean.den == n
                &&& st.median == median_of(s)
                &&& st.variance.num == n * sum_of_squares(s) - sum_of(s) * sum_of(s)
                &&& st.variance.den == n * n
                &&& st.iqr == iqr_of(s).range
            }),
    {
        let m = match mean(data) {
            None => return None,
            Some(m) => m,
        };
        let md = median(data).unwrap();
        let v = variance(data).unwrap();
        let q = interquartile_range(data).unwrap();
        Some(
            Stats {
                target,
                total,
                scored: data.len(),
                mean: m,
                median: md,
                variance: v,
                iqr: q.range,
            },
        )
    }
}

} // verus!
