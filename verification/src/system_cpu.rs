//! The system-wide CPU counters and the usage between two readings of them.

use crate::number::{parse_unsigned, unsigned_value};
use crate::ratio::{
    lemma_percent_magnitude, lemma_percent_not_negative, lemma_percent_of_a_part, percent,
    percent_of,
};
use crate::source::ParseError;
use crate::text::{first_line, first_line_of, split, split_bytes, SPACE};
use vstd::prelude::*;

verus! {

/// How many time buckets a reading holds: user, nice, system, idle, iowait,
/// irq, softirq, steal, guest and guest_nice, in this order.
pub const BUCKETS: usize = 10;

/// The place of the idle bucket among them.
pub const IDLE: usize = 3;

/// How many fields stand before the buckets on the line: the label and the
/// empty field that its second blank leaves.
pub const LEADING_FIELDS: usize = 2;

/// One reading of the system-wide CPU time buckets.
#[derive(Debug)]
pub struct Cpu {
    values: Vec<i32>,
}

/// Whether `v` can be a reading: one value for each bucket, none negative.
pub open spec fn valid_buckets(v: Seq<i32>) -> bool {
    &&& v.len() == BUCKETS
    &&& forall|i: int| 0 <= i < v.len() ==> #[trigger] v[i] >= 0
}

/// The sum of all values.
pub open spec fn total(v: Seq<i32>) -> int
    decreases v.len(),
{
    if v.len() == 0 {
        0
    } else {
        total(v.drop_last()) + v.last()
    }
}

/// The share of the time between two readings that was not idle, in percent,
/// rounded toward zero; 0 where no time passed between them: where the
/// buckets of both add up to the same.
pub open spec fn usage_percent(previous: Seq<i32>, current: Seq<i32>) -> int {
    let delta: int = total(current) - total(previous);
    let idle: int = current[IDLE as int] - previous[IDLE as int];
    percent(delta - idle, delta)
}

/// What the text of the counter source holds. The first line is split at
/// every blank; the fields after the leading ones are the buckets, each a
/// count that cannot be negative. What follows the last bucket is not read.
pub open spec fn parsed_buckets(src: Seq<u8>) -> Result<Seq<i32>, ParseError> {
    let fields = split(first_line(src), SPACE);
    if fields.len() < LEADING_FIELDS + BUCKETS {
        Err(ParseError::MissingField)
    } else if exists|i: int|
        0 <= i < BUCKETS && (#[trigger] unsigned_value(fields[LEADING_FIELDS + i])) is None {
        Err(ParseError::InvalidNumber)
    } else {
        Ok(
            Seq::new(
                BUCKETS as nat,
                |i: int| unsigned_value(fields[LEADING_FIELDS + i]).unwrap() as i32,
            ),
        )
    }
}

impl View for Cpu {
    type V = Seq<i32>;

    /// The values of the buckets, in their order.
    closed spec fn view(&self) -> Seq<i32> {
        self.values@
    }
}

impl Cpu {
    #[verifier::type_invariant]
    spec fn well_formed(self) -> bool {
        valid_buckets(self.values@)
    }

    /// The reading in which every bucket is zero.
    pub fn zero() -> (cpu: Cpu)
        ensures
            valid_buckets(cpu@),
            forall|i: int| 0 <= i < BUCKETS ==> cpu@[i] == 0,
    {
        let mut values: Vec<i32> = Vec::new();
        while values.len() < BUCKETS
            invariant
                values.len() <= BUCKETS,
                forall|i: int| 0 <= i < values.len() ==> values@[i] == 0,
            decreases BUCKETS - values.len(),
        {
            values.push(0);
        }
        Cpu { values }
    }

    /// Reads the buckets from the text of the counter source.
    pub fn from_file(src: &[u8]) -> (r: Result<Cpu, ParseError>)
        ensures
            match r {
                Ok(cpu) => parsed_buckets(src@) == Ok::<Seq<i32>, ParseError>(cpu@) && valid_buckets(
                    cpu@,
                ),
                Err(e) => parsed_buckets(src@) == Err::<Seq<i32>, ParseError>(e),
            },
    {
        let fields = split_bytes(first_line_of(src), SPACE);
        let ghost texts = split(first_line(src@), SPACE);
        if fields.len() < LEADING_FIELDS + BUCKETS {
            return Err(ParseError::MissingField);
        }
        let mut values: Vec<i32> = Vec::new();
        while values.len() < BUCKETS
            invariant
                values.len() <= BUCKETS,
                texts == split(first_line(src@), SPACE),
                texts == crate::text::contents(fields@),
                fields.len() >= LEADING_FIELDS + BUCKETS,
                forall|i: int|
                    0 <= i < values.len() ==> unsigned_value(texts[LEADING_FIELDS + i]) == Some(
                        #[trigger] values@[i] as int,
                    ),
            decreases BUCKETS - values.len(),
        {
            let at: usize = values.len();
            match parse_unsigned(fields[LEADING_FIELDS + at].as_slice()) {
                Some(n) => {
                    values.push(n);
                },
                None => {
                    proof {
                        assert(unsigned_value(texts[LEADING_FIELDS + at]) is None);
                    }
                    return Err(ParseError::InvalidNumber);
                },
            }
        }
        proof {
            let expected = Seq::new(
                BUCKETS as nat,
                |i: int| unsigned_value(texts[LEADING_FIELDS + i]).unwrap() as i32,
            );
            assert forall|i: int| 0 <= i < BUCKETS implies (#[trigger] unsigned_value(
                texts[LEADING_FIELDS + i],
            )) is Some by {
                assert(unsigned_value(texts[LEADING_FIELDS + i]) == Some(values@[i] as int));
            }
            assert forall|i: int| 0 <= i < values@.len() implies #[trigger] values@[i] >= 0 by {
                assert(unsigned_value(texts[LEADING_FIELDS + i]) == Some(values@[i] as int));
            }
            assert(values@ =~= expected);
        }
        Ok(Cpu { values })
    }

    /// The values of the buckets, in their order.
    pub fn values(&self) -> (v: &Vec<i32>)
        ensures
            v@ == self@,
            valid_buckets(self@),
    {
        proof {
            use_type_invariant(self);
        }
        &self.values
    }

    /// The share of the time since `last` that was not idle, in percent.
    pub fn usage(&self, last: &Cpu) -> (percent: i64)
        ensures
            percent == usage_percent(last@, self@),
    {
        proof {
            use_type_invariant(self);
            use_type_invariant(last);
            lemma_total_bounds(self.values@);
            lemma_total_bounds(last.values@);
        }
        let delta: i64 = sum(&self.values) - sum(&last.values);
        let idle: i64 = self.values[IDLE] as i64 - last.values[IDLE] as i64;
        let used: i64 = delta - idle;
        proof {
            lemma_percent_magnitude(used as int, delta as int);
        }
        percent_of(used as i128, delta as i128) as i64
    }
}

/// A sum of counts is within the count of its terms times what one term can hold.
pub proof fn lemma_total_bounds(v: Seq<i32>)
    ensures
        v.len() * (i32::MIN as int) <= total(v) <= v.len() * (i32::MAX as int),
    decreases v.len(),
{
    if v.len() > 0 {
        lemma_total_bounds(v.drop_last());
    }
}

/// Where no value shrinks from one list to the other, the sum grows by at
/// least as much as any one value does.
pub proof fn lemma_total_grows_with_each_value(previous: Seq<i32>, current: Seq<i32>, k: int)
    requires
        previous.len() == current.len(),
        forall|i: int| 0 <= i < previous.len() ==> previous[i] <= current[i],
        0 <= k < previous.len(),
    ensures
        0 <= current[k] - previous[k] <= total(current) - total(previous),
    decreases previous.len(),
{
    let p = previous.drop_last();
    let c = current.drop_last();
    assert forall|i: int| 0 <= i < p.len() implies p[i] <= c[i] by {
        assert(p[i] == previous[i] && c[i] == current[i]);
    }
    assert(previous.last() <= current.last()) by {
        assert(previous[previous.len() - 1] <= current[previous.len() - 1]);
    }
    if k < p.len() {
        lemma_total_grows_with_each_value(p, c, k);
        assert(p[k] == previous[k] && c[k] == current[k]);
    } else if p.len() > 0 {
        lemma_total_grows_with_each_value(p, c, 0);
    } else {
        assert(total(p) == 0 && total(c) == 0);
    }
}

/// Adds the values up.
fn sum(values: &Vec<i32>) -> (s: i64)
    requires
        values.len() <= 0x1_0000,
    ensures
        s == total(values@),
{
    let mut s: i64 = 0;
    let mut at: usize = 0;
    while at < values.len()
        invariant
            at <= values.len(),
            values.len() <= 0x1_0000,
            s == total(values@.take(at as int)),
        decreases values.len() - at,
    {
        proof {
            lemma_total_bounds(values@.take(at as int));
            assert(values@.take(at + 1).drop_last() =~= values@.take(at as int));
        }
        s = s + values[at] as i64;
        at = at + 1;
    }
    proof {
        assert(values@.take(at as int) =~= values@);
    }
    s
}

/// Between a reading and itself no time passed: the usage is 0.
pub proof fn lemma_usage_of_same_reading(reading: Seq<i32>)
    ensures
        usage_percent(reading, reading) == 0,
{
}

/// Where the buckets of two readings add up to the same, the usage is 0,
/// whatever the buckets hold.
pub proof fn lemma_usage_without_elapsed_time(previous: Seq<i32>, current: Seq<i32>)
    requires
        total(current) == total(previous),
    ensures
        usage_percent(previous, current) == 0,
{
}

/// Where time passed between two readings and the idle bucket grew by no more
/// than all buckets together, the usage is not negative.
pub proof fn lemma_usage_not_negative(previous: Seq<i32>, current: Seq<i32>)
    requires
        valid_buckets(previous),
        valid_buckets(current),
        total(current) > total(previous),
        current[IDLE as int] - previous[IDLE as int] <= total(current) - total(previous),
    ensures
        0 <= usage_percent(previous, current),
{
    let delta: int = total(current) - total(previous);
    let used: int = delta - (current[IDLE as int] - previous[IDLE as int]);
    lemma_percent_not_negative(used, delta);
}

/// Where time passed between two readings and the idle bucket did not shrink
/// and grew by no more than all buckets together, the usage is a percentage:
/// at least 0 and at most 100.
pub proof fn lemma_usage_is_a_percentage(previous: Seq<i32>, current: Seq<i32>)
    requires
        valid_buckets(previous),
        valid_buckets(current),
        total(current) > total(previous),
        previous[IDLE as int] <= current[IDLE as int],
        current[IDLE as int] - previous[IDLE as int] <= total(current) - total(previous),
    ensures
        0 <= usage_percent(previous, current) <= 100,
{
    let delta: int = total(current) - total(previous);
    let used: int = delta - (current[IDLE as int] - previous[IDLE as int]);
    lemma_percent_of_a_part(used, delta);
}

/// Where time passed between two readings and no bucket shrank, the usage
/// is a percentage: at least 0 and at most 100.
pub proof fn lemma_usage_of_growing_counters(previous: Seq<i32>, current: Seq<i32>)
    requires
        valid_buckets(previous),
        valid_buckets(current),
        forall|i: int| 0 <= i < BUCKETS ==> previous[i] <= current[i],
        total(current) > total(previous),
    ensures
        0 <= usage_percent(previous, current) <= 100,
{
    lemma_total_grows_with_each_value(previous, current, IDLE as int);
    lemma_usage_is_a_percentage(previous, current);
}

} // verus!
