use vstd::prelude::*;
use vstd::pervasive::VecAdditionalExecFns;
use byteorder::{BigEndian, ByteOrder};

verus! {

/// The signed 32-bit value of four bytes, most significant first, in two's
/// complement.
pub open spec fn be_i32(b0: u8, b1: u8, b2: u8, b3: u8) -> int {
    let u = b0 as int * 0x100_0000 + b1 as int * 0x1_0000 + b2 as int * 0x100 + b3 as int;
    if u >= 0x8000_0000 {
        u - 0x1_0000_0000
    } else {
        u
    }
}

/// The four bytes of `n` in two's complement, most significant first.
pub open spec fn be_bytes(n: i32) -> Seq<u8> {
    let u: int = if n < 0 { n + 0x1_0000_0000 } else { n as int };
    seq![
        (u / 0x100_0000) as u8,
        (u / 0x1_0000 % 0x100) as u8,
        (u / 0x100 % 0x100) as u8,
        (u % 0x100) as u8,
    ]
}

/// Relies on byteorder's `BigEndian::read_i32`: the four bytes at `at`, most
/// significant first, as a two's complement integer.
#[verifier::external_body]
fn read_be_i32(raw: &[u8; 9], at: usize) -> (r: i32)
    requires
        at + 4 <= 9,
    ensures
        r as int == be_i32(raw@[at as int], raw@[at + 1], raw@[at + 2], raw@[at + 3]),
{
    BigEndian::read_i32(&raw[at..at + 4])
}

/// Relies on byteorder's `BigEndian::write_i32`: `n` as four bytes, most
/// significant first.
#[verifier::external_body]
fn write_be_i32(n: i32) -> (r: Vec<u8>)
    ensures
        r@ == be_bytes(n),
{
    let mut buf = vec![0u8; 4];
    BigEndian::write_i32(&mut buf, n);
    buf
}

/// A request to record `price` at `timestamp`.
pub struct InsertMessage {
    pub timestamp: i32,
    pub price: i32,
}

/// A request for the mean price over the timestamps from `min_time` to
/// `max_time`, both included.
pub struct QueryMessage {
    pub min_time: i32,
    pub max_time: i32,
}

/// One client request.
pub enum Message {
    Insert(InsertMessage),
    Query(QueryMessage),
    Undefined,
}

/// Kind byte of an insert request, ASCII `I`.
pub const INSERT_KIND: u8 = 73;

/// Kind byte of a query request, ASCII `Q`.
pub const QUERY_KIND: u8 = 81;

/// A request as it comes off the wire: a kind byte, then two big-endian
/// signed 32-bit fields.
pub type RawMessage = [u8; 9];

/// The request that a frame stands for: `'I'` records a price, `'Q'` asks
/// for a mean, any other kind byte is undefined.
pub open spec fn decode(raw: Seq<u8>) -> Message {
    let first = be_i32(raw[1], raw[2], raw[3], raw[4]) as i32;
    let second = be_i32(raw[5], raw[6], raw[7], raw[8]) as i32;
    if raw[0] == INSERT_KIND {
        Message::Insert(InsertMessage { timestamp: first, price: second })
    } else if raw[0] == QUERY_KIND {
        Message::Query(QueryMessage { min_time: first, max_time: second })
    } else {
        Message::Undefined
    }
}

impl vstd::std_specs::convert::FromSpecImpl<RawMessage> for Message {
    open spec fn obeys_from_spec() -> bool {
        true
    }

    open spec fn from_spec(v: RawMessage) -> Message {
        decode(v@)
    }
}

impl From<RawMessage> for Message {
    fn from(value: RawMessage) -> (r: Message)
        ensures
            r == decode(value@),
    {
        let kind = value[0];
        let first = read_be_i32(&value, 1);
        let second = read_be_i32(&value, 5);
        if kind == INSERT_KIND {
            Message::Insert(InsertMessage { timestamp: first, price: second })
        } else if kind == QUERY_KIND {
            Message::Query(QueryMessage { min_time: first, max_time: second })
        } else {
            Message::Undefined
        }
    }
}

/// Sum of the prices whose timestamps lie in `[lo, hi]`.
pub open spec fn range_sum(s: Seq<(i32, i32)>, lo: int, hi: int) -> int
    decreases s.len(),
{
    if s.len() == 0 {
        0
    } else {
        range_sum(s.drop_last(), lo, hi) + if lo <= s.last().0 <= hi {
            s.last().1 as int
        } else {
            0
        }
    }
}

/// Number of entries whose timestamps lie in `[lo, hi]`.
pub open spec fn range_count(s: Seq<(i32, i32)>, lo: int, hi: int) -> int
    decreases s.len(),
{
    if s.len() == 0 {
        0
    } else {
        range_count(s.drop_last(), lo, hi) + if lo <= s.last().0 <= hi {
            1int
        } else {
            0
        }
    }
}

/// `a / b` rounded toward zero, for `b > 0`.
pub open spec fn div_toward_zero(a: int, b: int) -> int {
    if a >= 0 {
        a / b
    } else {
        -((-a) / b)
    }
}

/// The answer to a query over `[lo, hi]`: the mean price in that range,
/// rounded toward zero, or 0 where the range is reversed or holds no entry.
pub open spec fn mean_in(s: Seq<(i32, i32)>, lo: int, hi: int) -> int {
    if lo > hi || range_count(s, lo, hi) == 0 {
        0
    } else {
        div_toward_zero(range_sum(s, lo, hi), range_count(s, lo, hi))
    }
}

proof fn lemma_range_bounds(s: Seq<(i32, i32)>, lo: int, hi: int)
    ensures
        0 <= range_count(s, lo, hi) <= s.len(),
        -0x8000_0000 * range_count(s, lo, hi) <= range_sum(s, lo, hi) <= 0x7fff_ffff * range_count(
            s,
            lo,
            hi,
        ),
    decreases s.len(),
{
    if s.len() > 0 {
        lemma_range_bounds(s.drop_last(), lo, hi);
    }
}

proof fn lemma_mean_fits(sum: int, count: int)
    requires
        count > 0,
        -0x8000_0000 * count <= sum <= 0x7fff_ffff * count,
    ensures
        -0x8000_0000 <= div_toward_zero(sum, count) <= 0x7fff_ffff,
{
    if sum >= 0 {
        assert(sum / count <= 0x7fff_ffff) by (nonlinear_arith)
            requires
                count > 0,
                0 <= sum <= 0x7fff_ffff * count,
        ;
        assert(sum / count >= 0) by (nonlinear_arith)
            requires
                count > 0,
                0 <= sum,
        ;
    } else {
        assert((-sum) / count <= 0x8000_0000) by (nonlinear_arith)
            requires
                count > 0,
                0 <= -sum <= 0x8000_0000 * count,
        ;
        assert((-sum) / count >= 0) by (nonlinear_arith)
            requires
                count > 0,
                0 <= -sum,
        ;
    }
}

/// Prices recorded by one client, each under its own timestamp.
pub struct PriceStore {
    entries: Vec<(i32, i32)>,
}

impl View for PriceStore {
    type V = Seq<(i32, i32)>;

    closed spec fn view(&self) -> Seq<(i32, i32)> {
        self.entries@
    }
}

/// No two entries share a timestamp.
pub open spec fn keys_unique(s: Seq<(i32, i32)>) -> bool {
    forall|i: int, j: int| 0 <= i < s.len() && 0 <= j < s.len() && i != j ==> (#[trigger] s[i]).0 != (
    #[trigger] s[j]).0
}

impl PriceStore {
    /// The store's invariant.
    pub open spec fn wf(&self) -> bool {
        keys_unique(self@)
    }

    /// A store with no prices.
    pub fn new() -> (r: PriceStore)
        ensures
            r@ == Seq::<(i32, i32)>::empty(),
            r.wf(),
    {
        PriceStore { entries: Vec::new() }
    }

    /// Records `price` at `timestamp`, replacing the price recorded there
    /// before, if any.
    pub fn insert(&mut self, timestamp: i32, price: i32)
        requires
            old(self).wf(),
        ensures
            final(self).wf(),
            forall|i: int|
                0 <= i < old(self)@.len() && (#[trigger] old(self)@[i]).0 == timestamp
                    ==> final(self)@ == old(self)@.update(i, (timestamp, price)),
            (forall|i: int| 0 <= i < old(self)@.len() ==> (#[trigger] old(self)@[i]).0 != timestamp)
                ==> final(self)@ == old(self)@.push((timestamp, price)),
    {
        let mut i: usize = 0;
        while i < self.entries.len()
            invariant
                i <= self.entries@.len(),
                self@ == old(self)@,
                keys_unique(self@),
                forall|j: int| 0 <= j < i ==> (#[trigger] self.entries@[j]).0 != timestamp,
            decreases self.entries@.len() - i,
        {
            if self.entries[i].0 == timestamp {
                let ghost before = self@;
                self.entries.set(i, (timestamp, price));
                assert forall|k: int|
                    0 <= k < before.len() && (#[trigger] before[k]).0 == timestamp implies k == i as int by {}
                assert forall|a: int, b: int|
                    0 <= a < self@.len() && 0 <= b < self@.len() && a != b implies (#[trigger] self@[a]).0
                        != (#[trigger] self@[b]).0 by {
                    if a != i as int && b != i as int {
                        assert(self@[a] == before[a] && self@[b] == before[b]);
                    } else if a == i as int {
                        assert(self@[b] == before[b]);
                    } else {
                        assert(self@[a] == before[a]);
                    }
                }
                return;
            }
            i = i + 1;
        }
        let ghost before = self@;
        self.entries.push((timestamp, price));
        assert forall|a: int, b: int|
            0 <= a < self@.len() && 0 <= b < self@.len() && a != b implies (#[trigger] self@[a]).0
                != (#[trigger] self@[b]).0 by {
            if a < before.len() {
                assert(self@[a] == before[a]);
            }
            if b < before.len() {
                assert(self@[b] == before[b]);
            }
        }
    }

    /// The mean price over the timestamps from `min_time` to `max_time`,
    /// both included, rounded toward zero; 0 where `min_time > max_time` or
    /// no price lies in the range.
    pub fn mean(&self, min_time: i32, max_time: i32) -> (r: i32)
        ensures
            r as int == mean_in(self@, min_time as int, max_time as int),
    {
        if min_time > max_time {
            return 0;
        }
        let mut total: i128 = 0;
        let mut found: u64 = 0;
        let mut i: usize = 0;
        while i < self.entries.len()
            invariant
                i <= self.entries@.len(),
                total == range_sum(self@.take(i as int), min_time as int, max_time as int),
                found == range_count(self@.take(i as int), min_time as int, max_time as int),
                found <= i,
            decreases self.entries@.len() - i,
        {
            proof {
                lemma_range_bounds(self@.take(i as int), min_time as int, max_time as int);
                assert(self@.take(i + 1).drop_last() =~= self@.take(i as int));
            }
            let (t, p) = self.entries[i];
            if min_time <= t && t <= max_time {
                total = total + p as i128;
                found = found + 1;
            }
            i = i + 1;
        }
        proof {
            assert(self@.take(i as int) =~= self@);
            lemma_range_bounds(self@, min_time as int, max_time as int);
        }
        if found == 0 {
            return 0;
        }
        proof {
            lemma_mean_fits(total as int, found as int);
        }
        let q: i128 = if total >= 0 {
            (total as u128 / found as u128) as i128
        } else {
            -(((-total) as u128 / found as u128) as i128)
        };
        q as i32
    }

    /// Answers one request. An insert records its price and has no answer;
    /// a query is answered with its mean as four big-endian bytes; an
    /// undefined request is answered with four zero bytes.
    pub fn apply(&mut self, msg: &Message) -> (r: Option<Vec<u8>>)
        requires
            old(self).wf(),
        ensures
            final(self).wf(),
            match *msg {
                Message::Insert(m) => {
                    &&& r is None
                    &&& forall|i: int|
                        0 <= i < old(self)@.len() && (#[trigger] old(self)@[i]).0 == m.timestamp
                            ==> final(self)@ == old(self)@.update(i, (m.timestamp, m.price))
                    &&& (forall|i: int|
                        0 <= i < old(self)@.len() ==> (#[trigger] old(self)@[i]).0 != m.timestamp)
                        ==> final(self)@ == old(self)@.push((m.timestamp, m.price))
                },
                Message::Query(m) => {
                    &&& final(self)@ == old(self)@
                    &&& r matches Some(b) && b@ == be_bytes(
                        mean_in(old(self)@, m.min_time as int, m.max_time as int) as i32,
                    )
                },
                Message::Undefined => {
                    &&& final(self)@ == old(self)@
                    &&& r matches Some(b) && b@ == be_bytes(0)
                },
            },
    {
        match msg {
            Message::Insert(m) => {
                self.insert(m.timestamp, m.price);
                None
            },
            Message::Query(m) => Some(write_be_i32(self.mean(m.min_time, m.max_time))),
            Message::Undefined => Some(write_be_i32(0)),
        }
    }
}

} // verus!
