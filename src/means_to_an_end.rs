//! The price protocol: a connection sends nine-byte messages that insert a
//! timestamped price or ask for the prices within a span of time.
use vstd::prelude::*;

verus! {

/// The price protocol.
#[derive(Debug, Clone, Copy, PartialEq, Eq)]
pub struct MeansToAnEnd;

impl MeansToAnEnd {
    /// The price protocol.
    pub fn new() -> (r: MeansToAnEnd)
        ensures
            r == MeansToAnEnd,
    {
        MeansToAnEnd
    }
}

/// One message of the protocol.
#[derive(Debug, Clone, Copy, PartialEq, Eq, Structural)]
pub enum Operation {
    /// `I`: a price at a time.
    Insert { timestamp: i32, price: i32 },
    /// `Q`: the prices from one time to another, both included.
    Query { min_time: i32, max_time: i32 },
    /// Any other first byte ends the connection.
    Other(u8),
}

/// Four bytes from `at` on, read as a big-endian two's complement integer.
pub open spec fn be_i32(b: Seq<u8>, at: int) -> int {
    let u = b[at] as int * 0x100_0000 + b[at + 1] as int * 0x1_0000 + b[at + 2] as int * 0x100
        + b[at + 3] as int;
    if u >= 0x8000_0000 {
        u - 0x1_0000_0000
    } else {
        u
    }
}

/// What a nine-byte message says: its first byte picks the operation (73,
/// `I`, inserts; 81, `Q`, queries), and two big-endian integers follow.
pub open spec fn decode_spec(b: Seq<u8>) -> Operation {
    if b[0] == 73u8 {
        Operation::Insert { timestamp: be_i32(b, 1) as i32, price: be_i32(b, 5) as i32 }
    } else if b[0] == 81u8 {
        Operation::Query { min_time: be_i32(b, 1) as i32, max_time: be_i32(b, 5) as i32 }
    } else {
        Operation::Other(b[0])
    }
}

/// Reads four bytes from `at` on as a big-endian two's complement integer.
fn read_be_i32(b: &[u8], at: usize) -> (r: i32)
    requires
        at + 4 <= b@.len(),
    ensures
        r as int == be_i32(b@, at as int),
{
    let u: u64 = (b[at] as u64) * 0x100_0000 + (b[at + 1] as u64) * 0x1_0000 + (b[at + 2] as u64)
        * 0x100 + b[at + 3] as u64;
    let v: i64 = if u >= 0x8000_0000 {
        u as i64 - 0x1_0000_0000
    } else {
        u as i64
    };
    v as i32
}

/// Reads one nine-byte message, as [`decode_spec`] says.
pub fn decode(message: &[u8]) -> (r: Operation)
    requires
        message@.len() == 9,
    ensures
        r == decode_spec(message@),
{
    let first = read_be_i32(message, 1);
    let second = read_be_i32(message, 5);
    if message[0] == 73u8 {
        Operation::Insert { timestamp: first, price: second }
    } else if message[0] == 81u8 {
        Operation::Query { min_time: first, max_time: second }
    } else {
        Operation::Other(message[0])
    }
}

/// The prices of `values` whose time lies from `lo` to `hi`, in the order
/// they were inserted.
pub open spec fn prices_between(values: Seq<(i32, i32)>, lo: i32, hi: i32) -> Seq<i32>
    decreases values.len(),
{
    if values.len() == 0 {
        seq![]
    } else {
        let rest = prices_between(values.drop_last(), lo, hi);
        let (t, p) = values.last();
        if lo <= t && t <= hi {
            rest.push(p)
        } else {
            rest
        }
    }
}

/// What one message of a connection comes to.
#[derive(Debug, PartialEq, Eq)]
pub enum Outcome {
    /// The price was stored.
    Stored,
    /// The prices asked for, whose mean is the reply.
    Prices(Vec<i32>),
    /// The connection ends.
    Stop,
}

/// The prices one connection has inserted, as (time, price), in order.
pub struct PriceLog {
    values: Vec<(i32, i32)>,
}

impl View for PriceLog {
    type V = Seq<(i32, i32)>;

    closed spec fn view(&self) -> Seq<(i32, i32)> {
        self.values@
    }
}

impl PriceLog {
    /// No prices yet.
    pub fn new() -> (r: PriceLog)
        ensures
            r@ == Seq::<(i32, i32)>::empty(),
    {
        PriceLog { values: Vec::new() }
    }

    /// The prices whose time lies from `lo` to `hi`, both included.
    pub fn prices(&self, lo: i32, hi: i32) -> (r: Vec<i32>)
        ensures
            r@ == prices_between(self@, lo, hi),
    {
        let mut r: Vec<i32> = Vec::new();
        let mut i: usize = 0;
        while i < self.values.len()
            invariant
                i <= self@.len(),
                r@ == prices_between(self@.take(i as int), lo, hi),
            decreases self@.len() - i,
        {
            let (t, p) = self.values[i];
            assert(self@.take(i + 1).drop_last() =~= self@.take(i as int));
            if lo <= t && t <= hi {
                r.push(p);
            }
            i = i + 1;
        }
        assert(self@.take(i as int) =~= self@);
        r
    }

    /// Handles one nine-byte message: an insert is stored, a query answered
    /// with the prices in its span, anything else ends the connection.
    pub fn apply(&mut self, message: &[u8]) -> (r: Outcome)
        requires
            message@.len() == 9,
        ensures
            match decode_spec(message@) {
                Operation::Insert { timestamp, price } => r == Outcome::Stored && final(self)@
                    == old(self)@.push((timestamp, price)),
                Operation::Query { min_time, max_time } => r is Prices && r->Prices_0@
                    == prices_between(old(self)@, min_time, max_time) && final(self)@ == old(
                    self,
                )@,
                Operation::Other(_) => r == Outcome::Stop && final(self)@ == old(self)@,
            },
    {
        match decode(message) {
            Operation::Insert { timestamp, price } => {
                self.values.push((timestamp, price));
                Outcome::Stored
            },
            Operation::Query { min_time, max_time } => Outcome::Prices(self.prices(min_time, max_time)),
            Operation::Other(_) => Outcome::Stop,
        }
    }
}

} // verus!
