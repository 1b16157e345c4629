use vstd::prelude::*;

verus! {

/// Length of one price bucket, in seconds.
pub const BUCKET_SECONDS: u64 = 3600;

/// One hourly bucket of the price series: `[start, start + 3600)` and the
/// average price of one ether over it, in micro-USD.
#[derive(Clone, Copy, Debug, PartialEq, Eq)]
pub struct PriceRecord {
    pub start: u64,
    pub price: u64,
}

pub open spec fn in_bucket(r: PriceRecord, t: u64) -> bool {
    r.start <= t && t < r.start + BUCKET_SECONDS
}

/// Price of the first bucket of `prices` that contains `t`.
pub open spec fn bucket_price(prices: Seq<PriceRecord>, t: u64) -> Option<u64>
    decreases prices.len(),
{
    if prices.len() == 0 {
        None
    } else if in_bucket(prices[0], t) {
        Some(prices[0].price)
    } else {
        bucket_price(prices.drop_first(), t)
    }
}

/// The record with the greatest start; among equal starts, the later one.
pub open spec fn latest(prices: Seq<PriceRecord>) -> Option<PriceRecord>
    decreases prices.len(),
{
    if prices.len() == 0 {
        None
    } else {
        match latest(prices.drop_last()) {
            None => Some(prices.last()),
            Some(r) => if r.start <= prices.last().start {
                Some(prices.last())
            } else {
                Some(r)
            },
        }
    }
}

/// The price at `t`: the bucket that holds `t`, else the latest price when
/// `t` lies after the latest bucket start, else none.
pub open spec fn price_at(prices: Seq<PriceRecord>, t: u64) -> Option<u64> {
    match bucket_price(prices, t) {
        Some(p) => Some(p),
        None => match latest(prices) {
            Some(r) => if t > r.start {
                Some(r.price)
            } else {
                None
            },
            None => None,
        },
    }
}

/// A series of non-overlapping buckets in increasing order of start.
pub open spec fn well_ordered(prices: Seq<PriceRecord>) -> bool {
    forall|i: int, j: int|
        0 <= i < j < prices.len() ==> #[trigger] prices[i].start + BUCKET_SECONDS <= #[trigger] prices[j].start
}

proof fn lemma_bucket_suffix(prices: Seq<PriceRecord>, i: int, t: u64)
    requires
        0 <= i < prices.len(),
    ensures
        bucket_price(prices.subrange(i, prices.len() as int), t) == (if in_bucket(prices[i], t) {
            Some(prices[i].price)
        } else {
            bucket_price(prices.subrange(i + 1, prices.len() as int), t)
        }),
{
    let s = prices.subrange(i, prices.len() as int);
    assert(s.drop_first() =~= prices.subrange(i + 1, prices.len() as int));
}

/// Looks up the price of one ether at `timestamp`; `None` where the series
/// gives no meaningful price (before its first bucket, or empty).
pub fn get_price_at_timestamp(timestamp: u64, prices: &Vec<PriceRecord>) -> (r: Option<u64>)
    ensures
        r == price_at(prices@, timestamp),
{
    let n = prices.len();
    let mut i: usize = 0;
    assert(prices@.subrange(0, n as int) =~= prices@);
    while i < n
        invariant
            n == prices@.len(),
            0 <= i <= n,
            bucket_price(prices@, timestamp) == bucket_price(
                prices@.subrange(i as int, n as int),
                timestamp,
            ),
        decreases n - i,
    {
        let rec = prices[i];
        proof {
            lemma_bucket_suffix(prices@, i as int, timestamp);
        }
        if rec.start <= timestamp && timestamp - rec.start < BUCKET_SECONDS {
            return Some(rec.price);
        }
        i = i + 1;
    }
    assert(prices@.subrange(n as int, n as int).len() == 0);
    let mut best: Option<PriceRecord> = None;
    let mut k: usize = 0;
    assert(prices@.take(0).len() == 0);
    while k < n
        invariant
            n == prices@.len(),
            0 <= k <= n,
            best == latest(prices@.take(k as int)),
        decreases n - k,
    {
        let rec = prices[k];
        assert(prices@.take(k + 1).drop_last() =~= prices@.take(k as int));
        best = match best {
            None => Some(rec),
            Some(b) => if b.start <= rec.start {
                Some(rec)
            } else {
                Some(b)
            },
        };
        k = k + 1;
    }
    assert(prices@.take(n as int) =~= prices@);
    match best {
        Some(b) => if timestamp > b.start {
            Some(b.price)
        } else {
            None
        },
        None => None,
    }
}

proof fn lemma_first_bucket(prices: Seq<PriceRecord>, i: int, t: u64)
    requires
        0 <= i < prices.len(),
        in_bucket(prices[i], t),
        forall|j: int| 0 <= j < i ==> !in_bucket(#[trigger] prices[j], t),
    ensures
        bucket_price(prices, t) == Some(prices[i].price),
    decreases i,
{
    if i > 0 {
        let rest = prices.drop_first();
        assert forall|j: int| 0 <= j < i - 1 implies !in_bucket(#[trigger] rest[j], t) by {
            assert(rest[j] == prices[j + 1]);
        }
        assert(!in_bucket(prices[0], t));
        lemma_first_bucket(rest, i - 1, t);
    }
}

proof fn lemma_no_bucket(prices: Seq<PriceRecord>, t: u64)
    requires
        forall|j: int| 0 <= j < prices.len() ==> !in_bucket(#[trigger] prices[j], t),
    ensures
        bucket_price(prices, t) is None,
    decreases prices.len(),
{
    if prices.len() > 0 {
        let rest = prices.drop_first();
        assert forall|j: int| 0 <= j < rest.len() implies !in_bucket(#[trigger] rest[j], t) by {
            assert(rest[j] == prices[j + 1]);
        }
        assert(!in_bucket(prices[0], t));
        lemma_no_bucket(rest, t);
    }
}

proof fn lemma_latest_is_last(prices: Seq<PriceRecord>)
    requires
        well_ordered(prices),
        prices.len() > 0,
    ensures
        latest(prices) == Some(prices.last()),
    decreases prices.len(),
{
    if prices.len() > 1 {
        let rest = prices.drop_last();
        assert forall|i: int, j: int| 0 <= i < j < rest.len() implies #[trigger] rest[i].start + BUCKET_SECONDS <= #[trigger] rest[j].start by {
            assert(prices[i].start + BUCKET_SECONDS <= prices[j].start);
        }
        lemma_latest_is_last(rest);
        assert(rest.last() == prices[prices.len() - 2]);
        assert(prices[prices.len() - 2].start + BUCKET_SECONDS <= prices[prices.len() - 1].start);
    } else {
        assert(prices.drop_last().len() == 0);
        assert(latest(prices.drop_last()) is None);
    }
}

/// Lookup in a series of non-overlapping buckets in increasing order: a time
/// inside a bucket gets that bucket's price, a time after the last bucket gets
/// the last price, and a time before the first bucket gets none. (`price_at`
/// is a spec function, so for a fixed series it depends on `t` alone.)
pub proof fn lemma_price_lookup(prices: Seq<PriceRecord>, t: u64)
    requires
        well_ordered(prices),
        prices.len() > 0,
    ensures
        forall|i: int|
            0 <= i < prices.len() && in_bucket(#[trigger] prices[i], t) ==> price_at(prices, t) == Some(
                prices[i].price,
            ),
        t >= prices.last().start + BUCKET_SECONDS ==> price_at(prices, t) == Some(prices.last().price),
        t < prices[0].start ==> price_at(prices, t) is None,
{
    assert forall|i: int| 0 <= i < prices.len() && in_bucket(#[trigger] prices[i], t) implies price_at(prices, t) == Some(prices[i].price) by {
        assert forall|j: int| 0 <= j < i implies !in_bucket(#[trigger] prices[j], t) by {
            assert(prices[j].start + BUCKET_SECONDS <= prices[i].start);
        }
        lemma_first_bucket(prices, i, t);
    }
    lemma_latest_is_last(prices);
    let n = prices.len() as int;
    if t >= prices.last().start + BUCKET_SECONDS {
        assert forall|j: int| 0 <= j < n implies !in_bucket(#[trigger] prices[j], t) by {
            if j < n - 1 {
                assert(prices[j].start + BUCKET_SECONDS <= prices[n - 1].start);
            }
        }
        lemma_no_bucket(prices, t);
    }
    if t < prices[0].start {
        assert forall|j: int| 0 <= j < n implies !in_bucket(#[trigger] prices[j], t) by {
            if j > 0 {
                assert(prices[0].start + BUCKET_SECONDS <= prices[j].start);
            }
        }
        lemma_no_bucket(prices, t);
        if n > 1 {
            assert(prices[0].start + BUCKET_SECONDS <= prices[n - 1].start);
        }
    }
}

} // verus!
