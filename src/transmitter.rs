//! The decisions of a per-client transmitter: when it stops, which datagrams
//! count as liveness pings, and which quotes it sends on.
use vstd::prelude::*;
use crate::protocol::texts;
use crate::text::{ascii_lower, chars_of, eq_chars, to_ascii_lower, trim, trim_chars};

verus! {

/// How long a transmitter waits for a ping before it stops, in milliseconds.
pub const PING_TIMEOUT_MS: u64 = 5000;

/// The `ticker` field of a quote payload, where the payload is a JSON object
/// with a string there.
pub uninterp spec fn json_ticker(payload: Seq<char>) -> Option<Seq<char>>;

/// Relies on `serde_json::from_str` into a `serde_json::Value`, then
/// `Value::get` and `Value::as_str`: the result depends on the text alone.
#[verifier::external_body]
fn payload_ticker(payload: &str) -> (r: Option<String>)
    ensures
        r is None <==> json_ticker(payload@) is None,
        r matches Some(t) ==> json_ticker(payload@) == Some(t@),
{
    let v: serde_json::Value = serde_json::from_str(payload).ok()?;
    v.get("ticker").and_then(|t| t.as_str()).map(|t| t.to_string())
}

/// The text that `String::from_utf8_lossy` makes of some bytes.
pub uninterp spec fn lossy_text(b: Seq<u8>) -> Seq<char>;

/// Relies on `String::from_utf8_lossy`: the text depends on the bytes alone.
#[verifier::external_body]
fn decode_lossy(b: &[u8]) -> (r: String)
    ensures
        r@ == lossy_text(b@),
{
    String::from_utf8_lossy(b).into_owned()
}

/// A datagram text that counts as a ping: `ping` in any case of ASCII
/// letters, blanks around it ignored.
pub open spec fn is_ping_spec(s: Seq<char>) -> bool {
    trim(ascii_lower(s)) == "ping"@
}

/// Whether a datagram text is a liveness ping.
pub fn is_ping_text(s: &str) -> (r: bool)
    ensures
        r == is_ping_spec(s@),
{
    let v = chars_of(s);
    let l = to_ascii_lower(&v);
    let t = trim_chars(&l);
    eq_chars(&t, &chars_of("ping"))
}

/// Whether a received datagram is a liveness ping.
pub fn is_ping(data: &[u8]) -> (r: bool)
    ensures
        r == is_ping_spec(lossy_text(data@)),
{
    let s = decode_lossy(data);
    is_ping_text(s.as_str())
}

/// More than `timeout` milliseconds have passed from `last` to `now`.
pub open spec fn ping_expired(last: u64, now: u64, timeout: u64) -> bool {
    now > last && now - last > timeout
}

/// A quote payload passes a filter: the filter is empty, or the payload's
/// ticker is in it.
pub open spec fn passes(filter: Seq<Seq<char>>, payload: Seq<char>) -> bool {
    ticker_passes(filter, json_ticker(payload))
}

/// A quote whose ticker was read as `ticker` (`None`: none could be read)
/// passes a filter: the filter is empty, or the ticker is in it.
pub open spec fn ticker_passes(filter: Seq<Seq<char>>, ticker: Option<Seq<char>>) -> bool {
    filter.len() == 0 || (ticker matches Some(t) && filter.contains(t))
}

/// The text of a ticker that was read, if one was.
pub open spec fn ticker_view(ticker: Option<String>) -> Option<Seq<char>> {
    match ticker {
        Some(t) => Some(t@),
        None => None,
    }
}

/// The state of one subscription's transmitter.
pub struct Transmitter {
    /// The tickers the client asked for; empty means all.
    pub filter: Vec<String>,
    /// When the last ping came, in milliseconds on the transmitter's clock.
    pub last_ping_ms: u64,
    /// How long to wait for a ping.
    pub timeout_ms: u64,
    /// Set once the transmitter has stopped; it never clears.
    pub done: bool,
}

impl Transmitter {
    /// A transmitter that starts at `now_ms` as if a ping had just come.
    pub fn new(filter: Vec<String>, now_ms: u64, timeout_ms: u64) -> (r: Transmitter)
        ensures
            r.filter == filter,
            r.last_ping_ms == now_ms,
            r.timeout_ms == timeout_ms,
            !r.done,
    {
        Transmitter { filter, last_ping_ms: now_ms, timeout_ms, done: false }
    }

    /// The check at the top of each round: stop when told to, or when the
    /// last ping is older than the timeout. Returns whether to go on.
    pub fn check(&mut self, now_ms: u64, stop_requested: bool) -> (go_on: bool)
        ensures
            final(self).done == (old(self).done || stop_requested || ping_expired(
                old(self).last_ping_ms,
                now_ms,
                old(self).timeout_ms,
            )),
            go_on == !final(self).done,
            final(self).filter == old(self).filter,
            final(self).last_ping_ms == old(self).last_ping_ms,
            final(self).timeout_ms == old(self).timeout_ms,
    {
        if stop_requested || (now_ms > self.last_ping_ms && now_ms - self.last_ping_ms
            > self.timeout_ms) {
            self.done = true;
        }
        !self.done
    }

    /// Takes note of a datagram from the client: a ping renews liveness.
    pub fn on_datagram(&mut self, now_ms: u64, data: &[u8])
        ensures
            final(self).last_ping_ms == (if is_ping_spec(lossy_text(data@)) {
                now_ms
            } else {
                old(self).last_ping_ms
            }),
            final(self).done == old(self).done,
            final(self).filter == old(self).filter,
            final(self).timeout_ms == old(self).timeout_ms,
    {
        if is_ping(data) {
            self.last_ping_ms = now_ms;
        }
    }

    /// Whether the transmitter sends a payload on.
    pub open spec fn sends(&self, payload: Seq<char>) -> bool {
        !self.done && passes(texts(self.filter@), payload)
    }

    /// Whether a quote payload from the inbox is sent to the client: only
    /// while the transmitter runs, and only where it passes the filter.
    pub fn on_quote(&self, payload: &str) -> (send: bool)
        ensures
            send == self.sends(payload@),
    {
        if self.done {
            return false;
        }
        if self.filter.len() == 0 {
            return true;
        }
        let ticker = payload_ticker(payload);
        self.sends_ticker(&ticker)
    }

    /// Whether a quote whose ticker was read as `ticker` is sent: only while
    /// the transmitter runs, and only where the ticker passes the filter.
    pub fn sends_ticker(&self, ticker: &Option<String>) -> (send: bool)
        ensures
            send == (!self.done && ticker_passes(texts(self.filter@), ticker_view(*ticker))),
    {
        if self.done {
            return false;
        }
        if self.filter.len() == 0 {
            return true;
        }
        match ticker {
            None => false,
            Some(t) => {
                let tv = chars_of(t.as_str());
                let mut i: usize = 0;
                while i < self.filter.len()
                    invariant
                        i <= self.filter@.len(),
                        tv@ == t@,
                        ticker_view(*ticker) == Some(t@),
                        !self.done,
                        self.filter@.len() > 0,
                        forall|k: int| 0 <= k < i ==> #[trigger] self.filter@[k]@ != t@,
                    decreases self.filter@.len() - i,
                {
                    let fs: &str = self.filter[i].as_str();
                    let fv = chars_of(fs);
                    assert(fv@ == self.filter@[i as int]@);
                    if eq_chars(&fv, &tv) {
                        assert(texts(self.filter@).len() == self.filter@.len());
                        assert(texts(self.filter@)[i as int] == t@);
                        assert(texts(self.filter@).contains(t@));
                        return true;
                    }
                    i = i + 1;
                }
                proof {
                    assert forall|k: int| 0 <= k < texts(self.filter@).len() implies texts(
                        self.filter@,
                    )[k] != t@ by {
                        assert(texts(self.filter@)[k] == self.filter@[k]@);
                    }
                }
                false
            },
        }
    }
}

/// The payloads of `ps` that a transmitter sends on, in the order they came.
pub open spec fn forwarded(t: Transmitter, ps: Seq<Seq<char>>) -> Seq<Seq<char>>
    decreases ps.len(),
{
    if ps.len() == 0 {
        Seq::empty()
    } else if t.sends(ps.last()) {
        forwarded(t, ps.drop_last()).push(ps.last())
    } else {
        forwarded(t, ps.drop_last())
    }
}

/// The transmitter keeps the order of its inbox: what it sends of earlier
/// payloads all comes before what it sends of later ones.
pub proof fn lemma_forwarded_keeps_order(t: Transmitter, ps1: Seq<Seq<char>>, ps2: Seq<Seq<char>>)
    ensures
        forwarded(t, ps1 + ps2) == forwarded(t, ps1) + forwarded(t, ps2),
    decreases ps2.len(),
{
    if ps2.len() == 0 {
        assert(ps1 + ps2 =~= ps1);
        assert(forwarded(t, ps1) + forwarded(t, ps2) =~= forwarded(t, ps1));
    } else {
        assert((ps1 + ps2).drop_last() =~= ps1 + ps2.drop_last());
        assert((ps1 + ps2).last() == ps2.last());
        lemma_forwarded_keeps_order(t, ps1, ps2.drop_last());
        if t.sends(ps2.last()) {
            assert(forwarded(t, ps1 + ps2) =~= forwarded(t, ps1) + forwarded(t, ps2));
        }
    }
}

/// A transmitter that has stopped sends nothing, whatever its inbox holds.
pub proof fn lemma_stopped_sends_nothing(t: Transmitter, ps: Seq<Seq<char>>)
    requires
        t.done,
    ensures
        forwarded(t, ps).len() == 0,
    decreases ps.len(),
{
    if ps.len() > 0 {
        lemma_stopped_sends_nothing(t, ps.drop_last());
    }
}

/// Every payload a transmitter with a filter sends names a ticker of that filter.
pub proof fn lemma_forwarded_in_filter(t: Transmitter, ps: Seq<Seq<char>>, k: int)
    requires
        t.filter@.len() > 0,
        0 <= k < forwarded(t, ps).len(),
    ensures
        json_ticker(forwarded(t, ps)[k]) matches Some(x) && texts(t.filter@).contains(x),
    decreases ps.len(),
{
    if k < forwarded(t, ps.drop_last()).len() {
        lemma_forwarded_in_filter(t, ps.drop_last(), k);
    }
}

} // verus!
