//! The integer side of quote generation: which ticker trades, how many units,
//! on which side, and which price tier each ticker starts in.
use vstd::prelude::*;
use crate::protocol::texts;

verus! {

/// The fewest units in one trade.
pub const UNITS_MIN: u32 = 1;

/// The most units in one trade.
pub const UNITS_MAX: u32 = 500_000;

/// Share of tickers in the expensive tier, in percent.
pub const TOP_SHARE_PCT: usize = 10;

/// Share of tickers in the middle tier, in percent.
pub const MIDDLE_SHARE_PCT: usize = 40;

/// Relies on `rand::random_range` over `lo..=hi`: a value in the range, which
/// must not be empty.
#[verifier::external_body]
fn draw_between(lo: u64, hi: u64) -> (r: u64)
    requires
        lo <= hi,
    ensures
        lo <= r <= hi,
{
    rand::random_range(lo..=hi)
}

/// Relies on `rand::random_range` over `0..n`: an index below `n`, which must
/// not be zero.
#[verifier::external_body]
fn draw_index(n: usize) -> (r: usize)
    requires
        n > 0,
    ensures
        r < n,
{
    rand::random_range(0..n)
}

/// Relies on `rand::random::<bool>`: a fair coin.
#[verifier::external_body]
fn coin_flip() -> (r: bool) {
    rand::random::<bool>()
}

/// Relies on `SliceRandom::shuffle` of rand: it only swaps items, so the
/// same items stay.
#[verifier::external_body]
fn shuffle_in_place<T>(v: &mut Vec<T>)
    ensures
        final(v)@.to_multiset() == old(v)@.to_multiset(),
        final(v)@.len() == old(v)@.len(),
{
    rand::seq::SliceRandom::shuffle(v.as_mut_slice(), &mut rand::rng())
}

/// A random number in `min..=max`.
pub fn random(min: u64, max: u64) -> (r: u64)
    requires
        min <= max,
    ensures
        min <= r <= max,
{
    draw_between(min, max)
}

/// A random number between the two ends of a pair, both included.
pub fn random_by_tuple(t: (u64, u64)) -> (r: u64)
    requires
        t.0 <= t.1,
    ensures
        t.0 <= r <= t.1,
{
    random(t.0, t.1)
}

/// One of the strings, chosen at random; `None` where there are none.
pub fn random_choice_str(seq: &Vec<String>) -> (r: Option<String>)
    ensures
        r is None <==> seq@.len() == 0,
        r matches Some(s) ==> texts(seq@).contains(s@),
{
    if seq.len() == 0 {
        return None;
    }
    let i = draw_index(seq.len());
    let s = seq[i].clone();
    assert(texts(seq@)[i as int] == s@);
    Some(s)
}

/// The items of `vec` in a random order.
pub fn shuffle_vec<T>(vec: Vec<T>) -> (r: Vec<T>)
    ensures
        r@.to_multiset() == vec@.to_multiset(),
        r@.len() == vec@.len(),
{
    let mut v = vec;
    shuffle_in_place(&mut v);
    v
}

/// The side of a trade.
#[derive(Clone, Copy, Debug, PartialEq, Eq, Structural)]
pub enum Transaction {
    /// A sale.
    Sell,
    /// A purchase.
    Buy,
}

/// The name a side is written as in a datagram.
pub open spec fn transaction_text(t: Transaction) -> Seq<char> {
    match t {
        Transaction::Sell => "sell"@,
        Transaction::Buy => "buy"@,
    }
}

impl Transaction {
    /// The name this side is written as.
    pub fn as_str(&self) -> (r: &'static str)
        ensures
            r@ == transaction_text(*self),
    {
        match self {
            Transaction::Sell => "sell",
            Transaction::Buy => "buy",
        }
    }
}

/// The ticker, units and side of one synthetic trade.
pub struct Trade {
    pub ticker: String,
    pub volume: u32,
    pub transaction: Transaction,
}

/// Draws the ticker, units and side of the next trade; `None` where no
/// tickers are loaded.
pub fn draw_trade(tickers: &Vec<String>) -> (r: Option<Trade>)
    ensures
        r is None <==> tickers@.len() == 0,
        r matches Some(t) ==> texts(tickers@).contains(t.ticker@) && UNITS_MIN <= t.volume
            <= UNITS_MAX,
{
    let ticker = match random_choice_str(tickers) {
        Some(t) => t,
        None => {
            return None;
        },
    };
    let volume = random(UNITS_MIN as u64, UNITS_MAX as u64) as u32;
    let transaction = if coin_flip() {
        Transaction::Sell
    } else {
        Transaction::Buy
    };
    Some(Trade { ticker, volume, transaction })
}

/// The price tiers.
#[derive(Clone, Copy, Debug, PartialEq, Eq, Structural)]
pub enum Tier {
    Expensive,
    Middle,
    Low,
}

/// `pct` percent of `total`, rounded up.
pub open spec fn share_of(total: nat, pct: nat) -> nat {
    ((total * pct + 99) / 100) as nat
}

/// The tier of the ticker at `i` in a shuffled list of `total`: the first
/// tenth (rounded up) is expensive, the next two fifths (rounded up) middle,
/// the rest low.
pub open spec fn tier_at(i: nat, total: nat) -> Tier {
    if i < share_of(total, TOP_SHARE_PCT as nat) {
        Tier::Expensive
    } else if i < share_of(total, TOP_SHARE_PCT as nat) + share_of(total, MIDDLE_SHARE_PCT as nat) {
        Tier::Middle
    } else {
        Tier::Low
    }
}

/// The tier of the ticker at position `i` of a shuffled list of `total` tickers.
pub fn tier_of(i: usize, total: usize) -> (r: Tier)
    requires
        total <= usize::MAX / 100,
    ensures
        r == tier_at(i as nat, total as nat),
{
    let top = (total * TOP_SHARE_PCT + 99) / 100;
    let middle = (total * MIDDLE_SHARE_PCT + 99) / 100;
    if i < top {
        Tier::Expensive
    } else if i < top + middle {
        Tier::Middle
    } else {
        Tier::Low
    }
}

} // verus!
