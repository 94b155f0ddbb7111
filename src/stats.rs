//! Distributional statistics over per-file entropies, computed exactly: the mean,
//! median and variance come back as fractions of fixed-point units, the quartiles
//! as entries of the ascending order, and outliers by Tukey's fences.
use crate::structs::{sum_of, sum_of_squares, FileEntropy};
use vstd::prelude::*;
use vstd::multiset::Multiset;
use vstd::relations::{sorted_by, total_ordering};

verus! {

broadcast use vstd::seq_lib::group_to_multiset_ensures, vstd::multiset::group_multiset_axioms;

/// The exact value `num / den` of a statistic, in fixed-point units (squared
/// units for a variance).
#[derive(Clone, Copy, Debug, PartialEq, Eq, Structural)]
pub struct Ratio {
    pub num: u128,
    pub den: u128,
}

/// First and third quartile of a set of entropies, and their distance.
#[derive(Clone, Copy, Debug, PartialEq, Eq, Structural)]
pub struct Iqr {
    pub q1: u32,
    pub q3: u32,
    pub range: u32,
}

/// The entropies of a sequence of records, in order.
pub open spec fn entropy_values(data: Seq<FileEntropy>) -> Seq<u32> {
    data.map_values(|e: FileEntropy| e.entropy)
}

/// The order in which statistics arrange entropies.
pub open spec fn ascending() -> spec_fn(u32, u32) -> bool {
    |a: u32, b: u32| a <= b
}

/// The entropies `s` in ascending order.
pub open spec fn sorted_values(s: Seq<u32>) -> Seq<u32> {
    s.sort_by(ascending())
}

/// 1-based position of the first quartile among `n` sorted values; the third
/// quartile stands at three times this position.
pub open spec fn q1_position(n: nat) -> nat {
    if n % 2 == 0 {
        n / 4
    } else {
        (n + 1) / 4
    }
}

/// The quartile summary of the non-empty entropies `s`: for one value, that value
/// twice with a range of zero; otherwise the entries at the first- and
/// third-quartile positions of the ascending order.
pub open spec fn iqr_of(s: Seq<u32>) -> Iqr {
    if s.len() == 1 {
        Iqr { q1: s[0], q3: s[0], range: 0 }
    } else {
        let t = sorted_values(s);
        let p = q1_position(s.len()) as int;
        Iqr { q1: t[p - 1], q3: t[3 * p - 1], range: (t[3 * p - 1] - t[p - 1]) as u32 }
    }
}

/// The median of the non-empty entropies `s`: the middle entry of the ascending
/// order, or half the sum of the two middle entries when the count is even.
pub open spec fn median_of(s: Seq<u32>) -> Ratio {
    let t = sorted_values(s);
    let mid = (s.len() / 2) as int;
    if s.len() % 2 == 0 {
        Ratio { num: (t[mid - 1] + t[mid]) as u128, den: 2 }
    } else {
        Ratio { num: t[mid] as u128, den: 1 }
    }
}

proof fn lemma_ascending_total()
    ensures
        total_ordering(ascending()),
{
}

/// `t` is the ascending arrangement of `s`.
proof fn lemma_is_sorted_values(s: Seq<u32>, t: Seq<u32>)
    requires
        t.to_multiset() == s.to_multiset(),
        forall|i: int, j: int| 0 <= i < j < t.len() ==> t[i] <= t[j],
    ensures
        t == sorted_values(s),
        t.len() == s.len(),
{
    lemma_ascending_total();
    s.lemma_sort_by_ensures(ascending());
    assert(sorted_by(t, ascending()));
    vstd::seq_lib::lemma_sorted_unique(t, sorted_values(s), ascending());
    assert(t.len() == t.to_multiset().len());
}

/// The entropies of `data` in ascending order.
fn sort_entropies(data: &[FileEntropy]) -> (r: Vec<u32>)
    ensures
        r@ == sorted_values(entropy_values(data@)),
        r@.len() == data@.len(),
        forall|a: int, b: int| 0 <= a < b < r@.len() ==> r@[a] <= r@[b],
{
    let ghost values = entropy_values(data@);
    let mut out: Vec<u32> = Vec::new();
    let mut i: usize = 0;
    while i < data.len()
        invariant
            i <= data@.len(),
            values == entropy_values(data@),
            out@.to_multiset() == values.subrange(0, i as int).to_multiset(),
            forall|a: int, b: int| 0 <= a < b < out@.len() ==> out@[a] <= out@[b],
        decreases data@.len() - i,
    {
        let x = data[i].entropy;
        let mut pos: usize = 0;
        while pos < out.len() && out[pos] <= x
            invariant
                pos <= out@.len(),
                forall|a: int| 0 <= a < pos ==> out@[a] <= x,
            decreases out@.len() - pos,
        {
            pos = pos + 1;
        }
        let ghost prev = out@;
        out.insert(pos, x);
        proof {
            assert(prev.insert(pos as int, x) =~= prev.subrange(0, pos as int) + seq![x]
                + prev.subrange(pos as int, prev.len() as int));
            vstd::seq_lib::lemma_multiset_commutative(prev.subrange(0, pos as int), seq![x]);
            vstd::seq_lib::lemma_multiset_commutative(
                prev.subrange(0, pos as int) + seq![x],
                prev.subrange(pos as int, prev.len() as int),
            );
            vstd::seq_lib::lemma_multiset_commutative(
                prev.subrange(0, pos as int),
                prev.subrange(pos as int, prev.len() as int),
            );
            assert(prev =~= prev.subrange(0, pos as int) + prev.subrange(pos as int, prev.len() as int));
            assert(seq![x].to_multiset() =~= Multiset::empty().insert(x)) by {
                assert(seq![x] =~= Seq::<u32>::empty().push(x));
            }
            assert(values.subrange(0, i as int + 1) =~= values.subrange(0, i as int).push(x));
        }
        i = i + 1;
    }
    proof {
        assert(values.subrange(0, i as int) =~= values);
        lemma_is_sorted_values(values, out@);
    }
    out
}

/// The quartile summary of the entropies of `data`; `None` for no records.
/// Two records have no first-quartile position, and are left out.
pub fn interquartile_range(data: &[FileEntropy]) -> (r: Option<Iqr>)
    requires
        data@.len() != 2,
    ensures
        data@.len() == 0 ==> r is None,
        data@.len() > 0 ==> r == Some(iqr_of(entropy_values(data@))),
{
    if data.len() == 0 {
        return None;
    }
    if data.len() == 1 {
        let x = data[0].entropy;
        return Some(Iqr { q1: x, q3: x, range: 0 });
    }
    let sorted = sort_entropies(data);
    let len = sorted.len();
    let q1_idx = if len % 2 == 0 {
        len / 4
    } else {
        (len - 3) / 4 + 1
    };
    let q3_idx = 3 * q1_idx;
    let q1 = sorted[q1_idx - 1];
    let q3 = sorted[q3_idx - 1];
    Some(Iqr { q1, q3, range: q3 - q1 })
}

/// The median of the entropies of `data`; `None` for no records.
pub fn median(data: &[FileEntropy]) -> (r: Option<Ratio>)
    ensures
        data@.len() == 0 ==> r is None,
        data@.len() > 0 ==> r == Some(median_of(entropy_values(data@))),
{
    if data.len() == 0 {
        return None;
    }
    let sorted = sort_entropies(data);
    let len = sorted.len();
    let mid = len / 2;
    if len % 2 == 0 {
        let a = sorted[mid - 1];
        let b = sorted[mid];
        Some(Ratio { num: a as u128 + b as u128, den: 2 })
    } else {
        Some(Ratio { num: sorted[mid] as u128, den: 1 })
    }
}

/// The sum of the squared deviations of `n * x` from `c`, over the values `x` of `s`:
/// with `n` the count and `c` the sum of `s`, it is `n^3` times the population
/// variance of `s`.
pub open spec fn scaled_spread(s: Seq<u32>, n: int, c: int) -> int
    decreases s.len(),
{
    if s.len() == 0 {
        0
    } else {
        let d = n * s.last() - c;
        scaled_spread(s.drop_last(), n, c) + d * d
    }
}

/// Tukey's rule: `x` lies strictly below `q1 - 1.5 * range` or strictly above
/// `q3 + 1.5 * range`.
pub open spec fn outside_fences(x: u32, iqr: Iqr) -> bool {
    2 * x < 2 * iqr.q1 - 3 * iqr.range || 2 * x > 2 * iqr.q3 + 3 * iqr.range
}

/// Whether a record is an outlier with respect to the quartile summary `iqr`.
pub open spec fn is_outlier(iqr: Iqr) -> spec_fn(FileEntropy) -> bool {
    |e: FileEntropy| outside_fences(e.entropy, iqr)
}

proof fn lemma_spread_expansion(s: Seq<u32>, n: int, c: int)
    ensures
        scaled_spread(s, n, c) == n * n * sum_of_squares(s) - 2 * n * c * sum_of(s) + s.len() * c * c,
        scaled_spread(s, n, c) >= 0,
    decreases s.len(),
{
    if s.len() > 0 {
        let rest = s.drop_last();
        let x = s.last() as int;
        lemma_spread_expansion(rest, n, c);
        let sr = scaled_spread(rest, n, c);
        let qr = sum_of_squares(rest);
        let tr = sum_of(rest);
        let k = rest.len() as int;
        assert(sr + (n * x - c) * (n * x - c) == n * n * (qr + x * x) - 2 * n * c * (tr + x) + (k
            + 1) * c * c) by (nonlinear_arith)
            requires
                sr == n * n * qr - 2 * n * c * tr + k * c * c,
        ;
        assert((n * x - c) * (n * x - c) >= 0) by (nonlinear_arith);
    }
}

/// The sum and the sum of squares of the entropies of `data`.
fn entropy_sums(data: &[FileEntropy]) -> (r: (u128, u128))
    ensures
        r.0 == sum_of(entropy_values(data@)),
        r.1 == sum_of_squares(entropy_values(data@)),
        r.0 <= data@.len() * 0xffff_ffff,
        r.1 <= data@.len() * (0xffff_ffff * 0xffff_ffff),
{
    let ghost values = entropy_values(data@);
    let mut sum: u128 = 0;
    let mut squares: u128 = 0;
    let mut i: usize = 0;
    while i < data.len()
        invariant
            i <= data@.len(),
            values == entropy_values(data@),
            sum == sum_of(values.subrange(0, i as int)),
            squares == sum_of_squares(values.subrange(0, i as int)),
            sum <= i * 0xffff_ffff,
            squares <= i * (0xffff_ffff * 0xffff_ffff),
        decreases data@.len() - i,
    {
        let x = data[i].entropy as u128;
        assert(values.subrange(0, i as int + 1).drop_last() =~= values.subrange(0, i as int));
        assert(x * x <= 0xffff_ffff * 0xffff_ffff) by (nonlinear_arith)
            requires
                x <= 0xffff_ffff,
        ;
        assert(i * (0xffff_ffff * 0xffff_ffff) + 0xffff_ffff * 0xffff_ffff == (i + 1) * (0xffff_ffff
            * 0xffff_ffff)) by (nonlinear_arith);
        assert(i * 0xffff_ffff + 0xffff_ffff == (i + 1) * 0xffff_ffff) by (nonlinear_arith);
        assert((i + 1) * (0xffff_ffff * 0xffff_ffff) <= 0x1_0000_0000_0000_0000 * (0xffff_ffff
            * 0xffff_ffff)) by (nonlinear_arith)
            requires
                i < 0x1_0000_0000_0000_0000,
        ;
        sum = sum + x;
        squares = squares + x * x;
        i = i + 1;
    }
    assert(values.subrange(0, i as int) =~= values);
    (sum, squares)
}

/// The arithmetic mean of the entropies of `data`; `None` for no records.
pub fn mean(data: &[FileEntropy]) -> (r: Option<Ratio>)
    ensures
        data@.len() == 0 ==> r is None,
        data@.len() > 0 ==> (r matches Some(m) && m.num == sum_of(entropy_values(data@)) && m.den
            == data@.len()),
{
    if data.len() == 0 {
        return None;
    }
    let (sum, _) = entropy_sums(data);
    Some(Ratio { num: sum, den: data.len() as u128 })
}

/// The population variance (divisor `n`) of the entropies of `data`; `None` for
/// no records. The count is bounded so that the exact result fits.
pub fn variance(data: &[FileEntropy]) -> (r: Option<Ratio>)
    requires
        data@.len() <= u32::MAX,
    ensures
        data@.len() == 0 ==> r is None,
        data@.len() > 0 ==> (r matches Some(m) && {
            let s = entropy_values(data@);
            let n = data@.len() as int;
            &&& m.num == n * sum_of_squares(s) - sum_of(s) * sum_of(s)
            &&& m.den == n * n
            &&& m.num * n == scaled_spread(s, n, sum_of(s))
        }),
{
    if data.len() == 0 {
        return None;
    }
    let ghost s = entropy_values(data@);
    let n = data.len() as u128;
    let (sum, squares) = entropy_sums(data);
    proof {
        lemma_spread_expansion(s, n as int, sum as int);
        assert(n * squares <= 0xffff_ffff * 0xffff_ffff * (0xffff_ffff * 0xffff_ffff)) by (nonlinear_arith)
            requires
                n <= 0xffff_ffff,
                squares <= n * (0xffff_ffff * 0xffff_ffff),
        ;
        assert(n * n <= 0xffff_ffff * 0xffff_ffff) by (nonlinear_arith)
            requires
                n <= 0xffff_ffff,
        ;
        assert(n * squares - sum * sum >= 0) by (nonlinear_arith)
            requires
                n > 0,
                scaled_spread(s, n as int, sum as int) == n * n * squares - 2 * n * sum * sum + n * sum * sum,
                scaled_spread(s, n as int, sum as int) >= 0,
        ;
        assert(sum * sum <= n * squares) by (nonlinear_arith)
            requires
                n * squares - sum * sum >= 0,
        ;
        assert((n * squares - sum * sum) * n == scaled_spread(s, n as int, sum as int)) by (nonlinear_arith)
            requires
                scaled_spread(s, n as int, sum as int) == n * n * squares - 2 * n * sum * sum + n * sum * sum,
        ;
    }
    Some(Ratio { num: n * squares - sum * sum, den: n * n })
}

/// The records of `data` that lie outside the Tukey fences of its quartile
/// summary, in their order; `None` for no records. Two records have no quartile
/// summary, and are left out.
pub fn entropy_outliers(data: &[FileEntropy]) -> (r: Option<Vec<FileEntropy>>)
    requires
        data@.len() != 2,
    ensures
        data@.len() == 0 ==> r is None,
        data@.len() > 0 ==> (r matches Some(o) && o@ == data@.filter(
            is_outlier(iqr_of(entropy_values(data@))),
        )),
{
    let iqr = match interquartile_range(data) {
        None => return None,
        Some(q) => q,
    };
    let ghost pred = is_outlier(iqr);
    let low: i64 = 2 * (iqr.q1 as i64) - 3 * (iqr.range as i64);
    let high: i64 = 2 * (iqr.q3 as i64) + 3 * (iqr.range as i64);
    let mut out: Vec<FileEntropy> = Vec::new();
    let mut i: usize = 0;
    while i < data.len()
        invariant
            i <= data@.len(),
            pred == is_outlier(iqr),
            low == 2 * iqr.q1 - 3 * iqr.range,
            high == 2 * iqr.q3 + 3 * iqr.range,
            out@ == data@.subrange(0, i as int).filter(pred),
        decreases data@.len() - i,
    {
        let e = &data[i];
        let x: i64 = 2 * (e.entropy as i64);
        proof {
            assert(data@.subrange(0, i as int + 1) =~= data@.subrange(0, i as int).push(*e));
            data@.subrange(0, i as int).lemma_filter_push(*e, pred);
        }
        if x < low || x > high {
            out.push(e.duplicate());
        }
        i = i + 1;
    }
    assert(data@.subrange(0, i as int) =~= data@);
    Some(out)
}

/// A single record is its own quartile summary, with a range of zero, and is
/// never an outlier of itself.
pub proof fn lemma_single_record_summary(e: FileEntropy)
    ensures
        iqr_of(entropy_values(seq![e])) == (Iqr { q1: e.entropy, q3: e.entropy, range: 0 }),
        seq![e].filter(is_outlier(iqr_of(entropy_values(seq![e])))).len() == 0,
{
    let iqr = Iqr { q1: e.entropy, q3: e.entropy, range: 0 };
    assert(entropy_values(seq![e])[0] == e.entropy);
    assert(seq![e] =~= Seq::<FileEntropy>::empty().push(e));
    Seq::<FileEntropy>::empty().lemma_filter_push(e, is_outlier(iqr));
    assert(Seq::<FileEntropy>::empty().filter(is_outlier(iqr)) =~= Seq::<FileEntropy>::empty()) by {
        reveal_with_fuel(Seq::filter, 1);
    }
}

/// The records of `data` whose entropy is at least `min_entropy`, in order.
pub fn at_least(data: &[FileEntropy], min_entropy: u32) -> (r: Vec<FileEntropy>)
    ensures
        r@ == data@.filter(|e: FileEntropy| e.entropy >= min_entropy),
{
    let ghost pred = |e: FileEntropy| e.entropy >= min_entropy;
    let mut out: Vec<FileEntropy> = Vec::new();
    let mut i: usize = 0;
    while i < data.len()
        invariant
            i <= data@.len(),
            pred == (|e: FileEntropy| e.entropy >= min_entropy),
            out@ == data@.subrange(0, i as int).filter(pred),
        decreases data@.len() - i,
    {
        let e = &data[i];
        proof {
            assert(data@.subrange(0, i as int + 1) =~= data@.subrange(0, i as int).push(*e));
            data@.subrange(0, i as int).lemma_filter_push(*e, pred);
        }
        if e.entropy >= min_entropy {
            out.push(e.duplicate());
        }
        i = i + 1;
    }
    assert(data@.subrange(0, i as int) =~= data@);
    out
}

} // verus!
