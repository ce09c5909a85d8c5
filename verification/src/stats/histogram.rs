//! Latency histograms: the counting is done by `hdrhistogram`.

use hdrhistogram::Histogram;
use vstd::multiset::Multiset;
use vstd::prelude::*;

verus! {

/// A histogram of latencies with a fixed range and precision.
#[verifier::external_body]
#[derive(Debug)]
pub struct LatencyHistogram {
    inner: Histogram<u64>,
}

/// The values recorded since the histogram was made or last cleared.
pub uninterp spec fn recorded(h: LatencyHistogram) -> Multiset<u64>;

/// The values recorded since the histogram was made: clearing keeps the extremes.
pub uninterp spec fn seen(h: LatencyHistogram) -> Multiset<u64>;

/// The lowest and highest trackable value and the digits kept.
pub uninterp spec fn shape(h: LatencyHistogram) -> (int, int, int);

/// The level that `permille` thousandths of `values` do not exceed.
pub uninterp spec fn quantile_level(
    low: int,
    high: int,
    digits: int,
    values: Multiset<u64>,
    permille: int,
) -> u64;

/// The lowest level of a histogram that holds `values` and has seen `all`.
pub uninterp spec fn min_level(
    low: int,
    high: int,
    digits: int,
    values: Multiset<u64>,
    all: Multiset<u64>,
) -> u64;

/// The highest level of a histogram that has seen `all`.
pub uninterp spec fn max_level(low: int, high: int, digits: int, all: Multiset<u64>) -> u64;

/// The bits of the mean of `values` as a double.
pub uninterp spec fn mean_bits(low: int, high: int, digits: int, values: Multiset<u64>) -> u64;

impl LatencyHistogram {
    /// The values that count now.
    pub open spec fn values(self) -> Multiset<u64> {
        recorded(self)
    }

    /// The quantile in thousandths of the values that count now.
    pub open spec fn quantile(self, permille: int) -> u64 {
        quantile_level(shape(self).0, shape(self).1, shape(self).2, recorded(self), permille)
    }

    /// The lowest level.
    pub open spec fn lowest(self) -> u64 {
        min_level(shape(self).0, shape(self).1, shape(self).2, recorded(self), seen(self))
    }

    /// The highest level.
    pub open spec fn highest(self) -> u64 {
        max_level(shape(self).0, shape(self).1, shape(self).2, seen(self))
    }

    /// `Histogram::new_with_bounds`: an empty histogram without resizing. With a
    /// lowest value of one it is made for every range of at least two and every
    /// precision of at most five digits; what else is refused is not stated.
    #[verifier::external_body]
    pub(crate) fn with_bounds(low: u64, high: u64, digits: u8) -> (r: Option<LatencyHistogram>)
        ensures
            low == 1 && high >= 2 && digits <= 5 ==> r is Some,
            r is Some ==> recorded(r->0) == Multiset::<u64>::empty(),
            r is Some ==> seen(r->0) == Multiset::<u64>::empty(),
            r is Some ==> shape(r->0) == (low as int, high as int, digits as int),
    {
        Histogram::new_with_bounds(low, high, digits).ok().map(|inner| LatencyHistogram { inner })
    }

    /// `Histogram::record`: counts a value, or refuses one that is out of range
    /// and changes nothing. Every value up to the highest trackable one is in
    /// range; how far above it the range reaches is not stated.
    #[verifier::external_body]
    pub(crate) fn record(&mut self, value: u64) -> (ok: bool)
        ensures
            shape(*final(self)) == shape(*old(self)),
            value <= shape(*old(self)).1 ==> ok,
            ok ==> recorded(*final(self)) == recorded(*old(self)).insert(value),
            ok ==> seen(*final(self)) == seen(*old(self)).insert(value),
            !ok ==> recorded(*final(self)) == recorded(*old(self)),
            !ok ==> seen(*final(self)) == seen(*old(self)),
    {
        self.inner.record(value).is_ok()
    }

    /// `Histogram::clear`: forgets the counts and keeps the extremes.
    #[verifier::external_body]
    pub(crate) fn clear(&mut self)
        ensures
            shape(*final(self)) == shape(*old(self)),
            recorded(*final(self)) == Multiset::<u64>::empty(),
            seen(*final(self)) == seen(*old(self)),
    {
        self.inner.clear()
    }

    /// `Histogram::len`: how many values are counted; the count stops at the
    /// largest 64-bit number.
    #[verifier::external_body]
    pub(crate) fn len(&self) -> (n: u64)
        ensures
            recorded(*self).len() <= u64::MAX ==> n == recorded(*self).len(),
            recorded(*self).len() > u64::MAX ==> n == u64::MAX,
    {
        self.inner.len()
    }

    /// `Histogram::min`: the lowest level, which no counted value is below.
    #[verifier::external_body]
    pub(crate) fn min(&self) -> (v: u64)
        ensures
            v == min_level(shape(*self).0, shape(*self).1, shape(*self).2, recorded(*self), seen(*self)),
            forall|x: u64| recorded(*self).count(x) > 0 ==> v <= x,
    {
        self.inner.min()
    }

    /// `Histogram::max`: the highest level, which no counted value is above.
    #[verifier::external_body]
    pub(crate) fn max(&self) -> (v: u64)
        ensures
            v == max_level(shape(*self).0, shape(*self).1, shape(*self).2, seen(*self)),
            forall|x: u64| seen(*self).count(x) > 0 ==> v >= x,
    {
        self.inner.max()
    }

    /// `Histogram::value_at_quantile`, the quantile given in thousandths: a level that
    /// lies between the lowest and the highest one, and not below that of a lower
    /// quantile. This holds where values are told apart from one on and none comes near
    /// the largest 64-bit number: with coarser units, or with such values, the extremes
    /// do not take part in every value.
    #[verifier::external_body]
    pub(crate) fn value_at_permille(&self, permille: u32) -> (v: u64)
        requires
            recorded(*self).len() <= u64::MAX,
            shape(*self).0 == 1,
            shape(*self).1 < 0x4000_0000_0000_0000,
            1 <= permille <= 999,
        ensures
            v == quantile_level(
                shape(*self).0,
                shape(*self).1,
                shape(*self).2,
                recorded(*self),
                permille as int,
            ),
            recorded(*self).len() > 0 ==> self.lowest() <= v <= self.highest(),
            forall|q: int| 1 <= q <= permille ==> #[trigger] self.quantile(q) <= v,
    {
        self.inner.value_at_quantile(format!("{permille}e-3").parse().unwrap_or_default())
    }

    /// `Histogram::mean`, handed on as the bits of a double.
    #[verifier::external_body]
    pub(crate) fn mean(&self) -> (bits: u64)
        requires
            recorded(*self).len() <= u64::MAX,
        ensures
            bits == mean_bits(shape(*self).0, shape(*self).1, shape(*self).2, recorded(*self)),
    {
        self.inner.mean().to_bits()
    }
}

} // verus!
