//! The CPU ticks of one process and the usage between two readings of them.

use crate::number::{parse_unsigned, unsigned_value};
use crate::ratio::{percent, percent_of};
use crate::source::ParseError;
use crate::text::{contents, first_line, first_line_of, split, split_bytes, SPACE};
use vstd::prelude::*;

verus! {

/// How many ticks the operating system counts in a second. The figure is
/// fixed here; it is not asked of the machine.
pub const TICKS_PER_SECOND: u128 = 100;

/// How many nanoseconds a second has.
pub const NANOS_PER_SECOND: u128 = 1_000_000_000;

/// The place, counted from 0, of the first field that is summed.
pub const FIRST_TICK_FIELD: usize = 13;

/// How many fields are summed: the ticks in user mode, those in kernel mode,
/// those of the children waited for in either mode, and the field after them.
pub const TICK_FIELDS: usize = 5;

/// One reading of the CPU ticks of a process.
#[derive(Clone, Copy, Debug, PartialEq, Eq, Structural)]
pub struct Process {
    /// The ticks that the process has used since it started.
    pub total_time: i64,
    /// When the reading was taken, in nanoseconds since the epoch of the
    /// wall clock.
    pub when: u128,
}

/// The ticks that a process used between two readings, and the ticks that
/// passed on the wall clock meanwhile.
#[derive(Clone, Copy, Debug)]
pub struct ProcessUsage {
    computing_ticks: i128,
    elapsed_ticks: u128,
}

/// What a `ProcessUsage` stands for.
pub struct Ticks {
    /// The ticks that the process used: the later count less the earlier.
    pub computing: int,
    /// The ticks that passed: the whole seconds between the readings, each
    /// worth `TICKS_PER_SECOND`.
    pub elapsed: int,
}

/// The field of the line that holds the `i`-th summed count.
pub open spec fn tick_field(fields: Seq<Seq<u8>>, i: int) -> Option<int> {
    unsigned_value(fields[FIRST_TICK_FIELD + i])
}

/// What the text of the counter source holds. The first line is split at
/// every blank, and the summed fields are added up, each a count that cannot
/// be negative. What follows them is not read.
pub open spec fn parsed_ticks(src: Seq<u8>) -> Result<int, ParseError> {
    let fields = split(first_line(src), SPACE);
    if fields.len() < FIRST_TICK_FIELD + TICK_FIELDS {
        Err(ParseError::MissingField)
    } else if exists|i: int| 0 <= i < TICK_FIELDS && (#[trigger] tick_field(fields, i)) is None {
        Err(ParseError::InvalidNumber)
    } else {
        Ok(
            tick_field(fields, 0).unwrap() + tick_field(fields, 1).unwrap() + tick_field(
                fields,
                2,
            ).unwrap() + tick_field(fields, 3).unwrap() + tick_field(fields, 4).unwrap(),
        )
    }
}

/// The ticks that are read are not negative and fit the count of a reading.
pub proof fn lemma_parsed_ticks_fit(src: Seq<u8>)
    ensures
        parsed_ticks(src) matches Ok(ticks) ==> 0 <= ticks <= TICK_FIELDS * i32::MAX,
{
    let fields = split(first_line(src), SPACE);
    if parsed_ticks(src) is Ok {
        assert(tick_field(fields, 0) is Some);
        assert(tick_field(fields, 1) is Some);
        assert(tick_field(fields, 2) is Some);
        assert(tick_field(fields, 3) is Some);
        assert(tick_field(fields, 4) is Some);
    }
}

/// The whole seconds from one instant to a later one; 0 where the second
/// instant is not later.
pub open spec fn elapsed_seconds(previous: u128, current: u128) -> int {
    if current >= previous {
        (current - previous) / (NANOS_PER_SECOND as int)
    } else {
        0
    }
}

/// The usage between two readings of one process.
pub open spec fn usage_between(previous: Process, current: Process) -> Ticks {
    Ticks {
        computing: current.total_time - previous.total_time,
        elapsed: elapsed_seconds(previous.when, current.when) * TICKS_PER_SECOND,
    }
}

/// The usage in whole percent, rounded toward zero; 0 where no tick passed.
pub open spec fn usage_percent(ticks: Ticks) -> int {
    percent(ticks.computing, ticks.elapsed)
}

impl View for ProcessUsage {
    type V = Ticks;

    closed spec fn view(&self) -> Ticks {
        Ticks { computing: self.computing_ticks as int, elapsed: self.elapsed_ticks as int }
    }
}

impl ProcessUsage {
    #[verifier::type_invariant]
    spec fn well_formed(self) -> bool {
        &&& -0x1_0000_0000_0000_0000 <= self.computing_ticks <= 0x1_0000_0000_0000_0000
        &&& self.elapsed_ticks <= i128::MAX
    }

    /// The ticks that the process used.
    pub fn computing_ticks(&self) -> (ticks: i128)
        ensures
            ticks == self@.computing,
    {
        self.computing_ticks
    }

    /// The ticks that passed on the wall clock.
    pub fn elapsed_ticks(&self) -> (ticks: u128)
        ensures
            ticks == self@.elapsed,
    {
        self.elapsed_ticks
    }

    /// The usage in whole percent.
    pub fn percent(&self) -> (p: i128)
        ensures
            p == usage_percent(self@),
    {
        proof {
            use_type_invariant(self);
        }
        percent_of(self.computing_ticks, self.elapsed_ticks as i128)
    }
}

impl Process {
    /// Reads the ticks from the text of the counter source and stamps them
    /// with `when`, the instant at which the text was read.
    pub fn from_file(src: &[u8], when: u128) -> (r: Result<Process, ParseError>)
        ensures
            match r {
                Ok(p) => parsed_ticks(src@) == Ok::<int, ParseError>(p.total_time as int)
                    && p.when == when,
                Err(e) => parsed_ticks(src@) == Err::<int, ParseError>(e),
            },
    {
        let fields = split_bytes(first_line_of(src), SPACE);
        let ghost texts = split(first_line(src@), SPACE);
        if fields.len() < FIRST_TICK_FIELD + TICK_FIELDS {
            return Err(ParseError::MissingField);
        }
        let mut counts: Vec<i32> = Vec::new();
        while counts.len() < TICK_FIELDS
            invariant
                counts.len() <= TICK_FIELDS,
                texts == split(first_line(src@), SPACE),
                texts == contents(fields@),
                fields.len() >= FIRST_TICK_FIELD + TICK_FIELDS,
                forall|i: int|
                    0 <= i < counts.len() ==> tick_field(texts, i) == Some(
                        #[trigger] counts@[i] as int,
                    ),
            decreases TICK_FIELDS - counts.len(),
        {
            let at: usize = counts.len();
            match parse_unsigned(fields[FIRST_TICK_FIELD + at].as_slice()) {
                Some(n) => {
                    counts.push(n);
                },
                None => {
                    proof {
                        assert(tick_field(texts, at as int) is None);
                    }
                    return Err(ParseError::InvalidNumber);
                },
            }
        }
        proof {
            assert forall|i: int| 0 <= i < TICK_FIELDS implies (#[trigger] tick_field(
                texts,
                i,
            )) is Some by {
                assert(tick_field(texts, i) == Some(counts@[i] as int));
            }
            assert(tick_field(texts, 0) == Some(counts@[0] as int));
            assert(tick_field(texts, 1) == Some(counts@[1] as int));
            assert(tick_field(texts, 2) == Some(counts@[2] as int));
            assert(tick_field(texts, 3) == Some(counts@[3] as int));
            assert(tick_field(texts, 4) == Some(counts@[4] as int));
        }
        let total_time: i64 = counts[0] as i64 + counts[1] as i64 + counts[2] as i64
            + counts[3] as i64 + counts[4] as i64;
        Ok(Process { total_time, when })
    }

    /// The usage of the process since `last`.
    pub fn usage(&self, last: &Process) -> (u: ProcessUsage)
        ensures
            u@ == usage_between(*last, *self),
    {
        let computing_ticks: i128 = self.total_time as i128 - last.total_time as i128;
        let seconds: u128 = if self.when >= last.when {
            (self.when - last.when) / NANOS_PER_SECOND
        } else {
            0
        };
        ProcessUsage { computing_ticks, elapsed_ticks: seconds * TICKS_PER_SECOND }
    }
}

} // verus!
