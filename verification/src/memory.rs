//! The memory counters and the memory in use that they give.

use crate::number::{parse_signed, signed_value};
use crate::source::ParseError;
use crate::text::{
    contents, first_token, first_token_of, lines, split_lines, split_once, split_once_bytes,
    trim_start, trim_start_bytes, COLON,
};
use vstd::prelude::*;

verus! {

/// One reading of the memory counters.
#[derive(Clone, Copy, Debug, PartialEq, Eq, Structural)]
pub struct Memory {
    /// All memory, from the line `MemTotal`.
    pub total: i32,
    /// Memory that nothing uses, from the line `MemFree`.
    pub free: i32,
    /// Memory in buffers, from the line `Buffers`.
    pub buffers: i32,
    /// Memory in the page cache, from the line `Cached`.
    pub cached: i32,
    /// Kernel memory that can be reclaimed, from the line `SReclaimable`.
    pub reclaimable: i32,
}

/// The counters that are read.
#[derive(Clone, Copy, Debug, PartialEq, Eq, Structural)]
pub enum Counter {
    /// `MemTotal`
    Total,
    /// `MemFree`
    Free,
    /// `Buffers`
    Buffers,
    /// `Cached`
    Cached,
    /// `SReclaimable`
    Reclaimable,
}

/// The name under which the counter source lists a counter.
pub open spec fn counter_name(counter: Counter) -> Seq<u8> {
    match counter {
        Counter::Total => seq![77u8, 101u8, 109u8, 84u8, 111u8, 116u8, 97u8, 108u8],
        Counter::Free => seq![77u8, 101u8, 109u8, 70u8, 114u8, 101u8, 101u8],
        Counter::Buffers => seq![66u8, 117u8, 102u8, 102u8, 101u8, 114u8, 115u8],
        Counter::Cached => seq![67u8, 97u8, 99u8, 104u8, 101u8, 100u8],
        Counter::Reclaimable => seq![
            83u8,
            82u8,
            101u8,
            99u8,
            108u8,
            97u8,
            105u8,
            109u8,
            97u8,
            98u8,
            108u8,
            101u8,
        ],
    }
}

/// The counter that a name stands for, where it is the name of one.
pub open spec fn counter_named(name: Seq<u8>) -> Option<Counter> {
    if name == counter_name(Counter::Total) {
        Some(Counter::Total)
    } else if name == counter_name(Counter::Free) {
        Some(Counter::Free)
    } else if name == counter_name(Counter::Buffers) {
        Some(Counter::Buffers)
    } else if name == counter_name(Counter::Cached) {
        Some(Counter::Cached)
    } else if name == counter_name(Counter::Reclaimable) {
        Some(Counter::Reclaimable)
    } else {
        None
    }
}

/// The integer in the part of a line after its colon: the white space before
/// it is passed over, and it ends at the first blank or with the line.
pub open spec fn memory_value_of(raw: Seq<u8>) -> Option<int> {
    signed_value(first_token(trim_start(raw)))
}

/// What a line says: the counter that it names and the value it gives, which
/// is missing where what follows the colon is no integer. A line without a
/// colon, or with another name before it, says nothing.
pub open spec fn line_entry(line: Seq<u8>) -> Option<(Counter, Option<int>)> {
    match split_once(line, COLON) {
        Some((name, raw)) => match counter_named(name) {
            Some(counter) => Some((counter, memory_value_of(raw))),
            None => None,
        },
        None => None,
    }
}

/// Whether a line can be taken: it says nothing, or it gives a value.
pub open spec fn line_accepted(line: Seq<u8>) -> bool {
    line_entry(line) matches Some((_, value)) ==> value is Some
}

/// The value of a counter after the lines were read in order: the one that
/// the last line naming the counter gives, and 0 where no line names it.
pub open spec fn counter_value(text: Seq<Seq<u8>>, counter: Counter) -> int
    decreases text.len(),
{
    if text.len() == 0 {
        0
    } else {
        match line_entry(text.last()) {
            Some((named, Some(value))) if named == counter => value,
            _ => counter_value(text.drop_last(), counter),
        }
    }
}

/// What the text of the counter source holds: the five counters where every
/// line can be taken.
pub open spec fn parsed_memory(src: Seq<u8>) -> Result<Memory, ParseError> {
    let text = lines(src);
    if forall|i: int| 0 <= i < text.len() ==> line_accepted(#[trigger] text[i]) {
        Ok(
            Memory {
                total: counter_value(text, Counter::Total) as i32,
                free: counter_value(text, Counter::Free) as i32,
                buffers: counter_value(text, Counter::Buffers) as i32,
                cached: counter_value(text, Counter::Cached) as i32,
                reclaimable: counter_value(text, Counter::Reclaimable) as i32,
            },
        )
    } else {
        Err(ParseError::InvalidNumber)
    }
}

/// The memory in use: all memory less what is free, in buffers, in the page
/// cache or reclaimable.
pub open spec fn memory_in_use(m: Memory) -> int {
    m.total - m.free - m.buffers - m.cached - m.reclaimable
}

/// The value of a counter fits the reading that holds it.
pub proof fn lemma_counter_value_fits(text: Seq<Seq<u8>>, counter: Counter)
    ensures
        i32::MIN <= counter_value(text, counter) <= i32::MAX,
    decreases text.len(),
{
    if text.len() > 0 {
        lemma_counter_value_fits(text.drop_last(), counter);
    }
}

/// A counter that no line names is 0.
pub proof fn lemma_counter_not_named_is_zero(text: Seq<Seq<u8>>, counter: Counter)
    requires
        forall|i: int|
            0 <= i < text.len() ==> !(line_entry(#[trigger] text[i]) matches Some((named, _))
                && named == counter),
    ensures
        counter_value(text, counter) == 0,
    decreases text.len(),
{
    if text.len() > 0 {
        let front = text.drop_last();
        assert forall|i: int| 0 <= i < front.len() implies !(line_entry(
            #[trigger] front[i],
        ) matches Some((named, _)) && named == counter) by {
            assert(front[i] == text[i]);
        }
        lemma_counter_not_named_is_zero(front, counter);
        assert(text.last() == text[text.len() - 1]);
    }
}

/// The name of a counter, as bytes.
fn name_of(counter: Counter) -> (name: Vec<u8>)
    ensures
        name@ == counter_name(counter),
{
    let name: Vec<u8> = match counter {
        Counter::Total => vec![77u8, 101u8, 109u8, 84u8, 111u8, 116u8, 97u8, 108u8],
        Counter::Free => vec![77u8, 101u8, 109u8, 70u8, 114u8, 101u8, 101u8],
        Counter::Buffers => vec![66u8, 117u8, 102u8, 102u8, 101u8, 114u8, 115u8],
        Counter::Cached => vec![67u8, 97u8, 99u8, 104u8, 101u8, 100u8],
        Counter::Reclaimable => vec![
            83u8,
            82u8,
            101u8,
            99u8,
            108u8,
            97u8,
            105u8,
            109u8,
            97u8,
            98u8,
            108u8,
            101u8,
        ],
    };
    proof {
        assert(name@ =~= counter_name(counter));
    }
    name
}

/// Whether two texts hold the same bytes.
fn same_bytes(a: &[u8], b: &[u8]) -> (same: bool)
    ensures
        same == (a@ == b@),
{
    if a.len() != b.len() {
        return false;
    }
    let mut at: usize = 0;
    while at < a.len()
        invariant
            at <= a.len(),
            a.len() == b.len(),
            forall|k: int| 0 <= k < at ==> a@[k] == b@[k],
        decreases a.len() - at,
    {
        if a[at] != b[at] {
            return false;
        }
        at = at + 1;
    }
    proof {
        assert(a@ =~= b@);
    }
    true
}

/// Whether `name` is the name of `counter`.
fn names(name: &[u8], counter: Counter) -> (yes: bool)
    ensures
        yes == (name@ == counter_name(counter)),
{
    let expected = name_of(counter);
    same_bytes(name, expected.as_slice())
}

/// Finds the counter that `name` stands for.
pub fn counter_of(name: &[u8]) -> (counter: Option<Counter>)
    ensures
        counter == counter_named(name@),
{
    if names(name, Counter::Total) {
        Some(Counter::Total)
    } else if names(name, Counter::Free) {
        Some(Counter::Free)
    } else if names(name, Counter::Buffers) {
        Some(Counter::Buffers)
    } else if names(name, Counter::Cached) {
        Some(Counter::Cached)
    } else if names(name, Counter::Reclaimable) {
        Some(Counter::Reclaimable)
    } else {
        None
    }
}

/// Reads the integer in the part of a line after its colon.
pub fn memory_value(raw: &[u8]) -> (r: Result<i32, ParseError>)
    ensures
        match r {
            Ok(value) => memory_value_of(raw@) == Some(value as int),
            Err(e) => memory_value_of(raw@) is None && e == ParseError::InvalidNumber,
        },
{
    match parse_signed(first_token_of(trim_start_bytes(raw))) {
        Some(value) => Ok(value),
        None => Err(ParseError::InvalidNumber),
    }
}

impl Memory {
    /// The reading in which every counter is zero.
    pub fn zero() -> (m: Memory)
        ensures
            m == (Memory { total: 0, free: 0, buffers: 0, cached: 0, reclaimable: 0 }),
    {
        Memory { total: 0, free: 0, buffers: 0, cached: 0, reclaimable: 0 }
    }

    /// The value of one counter.
    pub open spec fn counter(&self, counter: Counter) -> int {
        match counter {
            Counter::Total => self.total as int,
            Counter::Free => self.free as int,
            Counter::Buffers => self.buffers as int,
            Counter::Cached => self.cached as int,
            Counter::Reclaimable => self.reclaimable as int,
        }
    }

    /// The reading with one counter set anew.
    pub fn with(self, counter: Counter, value: i32) -> (m: Memory)
        ensures
            m.counter(counter) == value,
            forall|other: Counter| other != counter ==> m.counter(other) == self.counter(other),
    {
        let mut m = self;
        match counter {
            Counter::Total => {
                m.total = value;
            },
            Counter::Free => {
                m.free = value;
            },
            Counter::Buffers => {
                m.buffers = value;
            },
            Counter::Cached => {
                m.cached = value;
            },
            Counter::Reclaimable => {
                m.reclaimable = value;
            },
        }
        m
    }

    /// Reads the counters from the text of the counter source.
    pub fn from_file(src: &[u8]) -> (r: Result<Memory, ParseError>)
        ensures
            r == parsed_memory(src@),
    {
        let text = split_lines(src);
        let ghost all = lines(src@);
        let mut m = Memory::zero();
        let mut at: usize = 0;
        while at < text.len()
            invariant
                at <= text.len(),
                all == lines(src@),
                all == contents(text@),
                forall|i: int| 0 <= i < at ==> line_accepted(#[trigger] all[i]),
                forall|c: Counter| #[trigger] m.counter(c) == counter_value(all.take(at as int), c),
            decreases text.len() - at,
        {
            let ghost line = all[at as int];
            proof {
                assert(all.take(at + 1).drop_last() =~= all.take(at as int));
                assert(all.take(at + 1).last() == line);
            }
            match split_once_bytes(text[at].as_slice(), COLON) {
                Some((name, raw)) => {
                    match counter_of(name) {
                        Some(counter) => {
                            match memory_value(raw) {
                                Ok(value) => {
                                    m = m.with(counter, value);
                                },
                                Err(e) => {
                                    proof {
                                        assert(!line_accepted(all[at as int]));
                                    }
                                    return Err(e);
                                },
                            }
                        },
                        None => {},
                    }
                },
                None => {},
            }
            at = at + 1;
        }
        proof {
            assert(all.take(at as int) =~= all);
            assert(m.counter(Counter::Total) == counter_value(all, Counter::Total));
            assert(m.counter(Counter::Free) == counter_value(all, Counter::Free));
            assert(m.counter(Counter::Buffers) == counter_value(all, Counter::Buffers));
            assert(m.counter(Counter::Cached) == counter_value(all, Counter::Cached));
            assert(m.counter(Counter::Reclaimable) == counter_value(all, Counter::Reclaimable));
        }
        Ok(m)
    }

    /// The memory in use.
    pub fn usage(&self) -> (used: i64)
        ensures
            used == memory_in_use(*self),
    {
        self.total as i64 - self.free as i64 - self.buffers as i64 - self.cached as i64
            - self.reclaimable as i64
    }
}

} // verus!
