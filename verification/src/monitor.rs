//! The sampling engine: it keeps the last reading of the system-wide CPU
//! counters and the last reading of every tracked process, and turns each
//! new reading into the usage since the one it kept.

use crate::memory::{memory_in_use, parsed_memory, Memory};
use crate::process_cpu::{parsed_ticks, usage_between, Process, ProcessUsage, Ticks};
use crate::source::{MonitorError, Reading};
use crate::system_cpu::{parsed_buckets, usage_percent, Cpu, BUCKETS};
use std::collections::HashMap;
use vstd::prelude::*;
use vstd::std_specs::iter::IteratorSpec;

verus! {

/// The sampling engine.
pub struct Monitor {
    last_cpu: Cpu,
    last_processes: HashMap<i32, Process>,
}

/// What was read of one process: its id, the outcome of reading its counter
/// source, and the instant at which that was tried.
#[derive(Clone, Debug)]
pub struct ProcessReading {
    /// The id of the process.
    pub pid: i32,
    /// What came back from its counter source.
    pub source: Reading,
    /// When the source was read, in nanoseconds since the epoch of the wall
    /// clock.
    pub when: u128,
}

/// What a batch of readings gave.
#[derive(Debug)]
pub struct ProcessSamples {
    /// The usage of each process whose reading succeeded, with its id, in the
    /// order of the readings.
    pub usages: Vec<(i32, ProcessUsage)>,
    /// The failure of each reading that failed while its process exists,
    /// with the id of the process, in the order of the readings.
    pub failures: Vec<(i32, MonitorError)>,
}

/// The reading of a process that a read of its counter source gives. A
/// source that does not exist says that the process is gone.
pub open spec fn process_read(source: Reading, when: u128) -> Result<Process, MonitorError> {
    match source {
        Reading::Content(bytes) => match parsed_ticks(bytes@) {
            Ok(ticks) => Ok(Process { total_time: ticks as i64, when }),
            Err(e) => Err(MonitorError::Parse(e)),
        },
        Reading::NotFound => Err(MonitorError::NotFound),
        Reading::Unreadable => Err(MonitorError::Io),
    }
}

/// The system-wide CPU buckets that a read of their counter source gives. A
/// source that does not exist could not be read.
pub open spec fn system_read(source: Reading) -> Result<Seq<i32>, MonitorError> {
    match source {
        Reading::Content(bytes) => match parsed_buckets(bytes@) {
            Ok(buckets) => Ok(buckets),
            Err(e) => Err(MonitorError::Parse(e)),
        },
        _ => Err(MonitorError::Io),
    }
}

/// The memory in use that a read of the memory counter source gives.
pub open spec fn memory_read(source: Reading) -> Result<int, MonitorError> {
    match source {
        Reading::Content(bytes) => match parsed_memory(bytes@) {
            Ok(m) => Ok(memory_in_use(m)),
            Err(e) => Err(MonitorError::Parse(e)),
        },
        _ => Err(MonitorError::Io),
    }
}

/// What one reading does to the processes that are followed, and what it
/// yields. A reading of a process that is not followed changes nothing and
/// yields nothing. Of a process that is followed:
/// - a reading that succeeded takes the place of the one that was kept and
///   yields the usage since then;
/// - a source that does not exist ends the following: the process is gone;
/// - any other failure changes nothing: the process stays followed, with the
///   reading that was kept, and the failure is what the reading yields.
pub open spec fn sampled(processes: Map<i32, Process>, reading: ProcessReading) -> (
    Map<i32, Process>,
    Option<Result<Ticks, MonitorError>>,
) {
    if !processes.contains_key(reading.pid) {
        (processes, None)
    } else {
        match process_read(reading.source, reading.when) {
            Ok(current) => (
                processes.insert(reading.pid, current),
                Some(Ok(usage_between(processes[reading.pid], current))),
            ),
            Err(MonitorError::NotFound) => (
                processes.remove(reading.pid),
                Some(Err(MonitorError::NotFound)),
            ),
            Err(e) => (processes, Some(Err(e))),
        }
    }
}

/// What a batch of readings comes to.
pub struct Sampled {
    /// The processes that are followed afterwards, each with the reading
    /// that is kept of it.
    pub processes: Map<i32, Process>,
    /// The usages that the readings yielded, each with the id of its
    /// process, in the order of the readings.
    pub usages: Seq<(i32, Ticks)>,
    /// The failures that the readings yielded, each with the id of its
    /// process, in the order of the readings. A process that is gone is no
    /// failure: it is not listed.
    pub failures: Seq<(i32, MonitorError)>,
}

/// What a batch of readings does, taken one after the other in their order.
pub open spec fn sampled_all(processes: Map<i32, Process>, readings: Seq<ProcessReading>) -> Sampled
    decreases readings.len(),
{
    if readings.len() == 0 {
        Sampled { processes, usages: Seq::empty(), failures: Seq::empty() }
    } else {
        let before = sampled_all(processes, readings.drop_last());
        let (after, outcome) = sampled(before.processes, readings.last());
        match outcome {
            Some(Ok(ticks)) => Sampled {
                processes: after,
                usages: before.usages.push((readings.last().pid, ticks)),
                failures: before.failures,
            },
            Some(Err(e)) if e != MonitorError::NotFound => Sampled {
                processes: after,
                usages: before.usages,
                failures: before.failures.push((readings.last().pid, e)),
            },
            _ => Sampled { processes: after, usages: before.usages, failures: before.failures },
        }
    }
}

/// To stop following a process a second time changes nothing.
pub proof fn lemma_untrack_twice(processes: Map<i32, Process>, pid: i32)
    ensures
        processes.remove(pid).remove(pid) == processes.remove(pid),
        !processes.contains_key(pid) ==> processes.remove(pid) == processes,
{
    assert(processes.remove(pid).remove(pid) =~= processes.remove(pid));
    if !processes.contains_key(pid) {
        assert(processes.remove(pid) =~= processes);
    }
}

/// A source that does not exist gives no reading: what it gives is the
/// failure that the process was not found.
pub proof fn lemma_missing_source_is_not_found(when: u128)
    ensures
        process_read(Reading::NotFound, when) == Err::<Process, MonitorError>(
            MonitorError::NotFound,
        ),
{
}

/// A batch of one reading, of a process that is followed and whose source
/// does not exist, yields no usage and no failure, and leaves one process
/// fewer: all the others, and not that one.
pub proof fn lemma_vanished_process_leaves(processes: Map<i32, Process>, reading: ProcessReading)
    requires
        processes.dom().finite(),
        processes.contains_key(reading.pid),
        process_read(reading.source, reading.when) == Err::<Process, MonitorError>(
            MonitorError::NotFound,
        ),
    ensures
        sampled_all(processes, seq![reading]) == (Sampled {
            processes: processes.remove(reading.pid),
            usages: Seq::empty(),
            failures: Seq::empty(),
        }),
        processes.remove(reading.pid).len() == processes.len() - 1,
        !processes.remove(reading.pid).contains_key(reading.pid),
{
    let one = seq![reading];
    assert(one.drop_last() =~= Seq::<ProcessReading>::empty());
    assert(one.last() == reading);
    assert(sampled_all(processes, one.drop_last()).processes == processes);
}

/// A reading that fails for another cause than a source that does not exist
/// ends nothing: the processes are followed as before, each with the reading
/// that was kept, and the failure is listed.
pub proof fn lemma_failed_reading_keeps_process(
    processes: Map<i32, Process>,
    reading: ProcessReading,
    e: MonitorError,
)
    requires
        processes.contains_key(reading.pid),
        process_read(reading.source, reading.when) == Err::<Process, MonitorError>(e),
        e != MonitorError::NotFound,
    ensures
        sampled_all(processes, seq![reading]) == (Sampled {
            processes,
            usages: Seq::empty(),
            failures: seq![(reading.pid, e)],
        }),
{
    let one = seq![reading];
    assert(one.drop_last() =~= Seq::<ProcessReading>::empty());
    assert(one.last() == reading);
    assert(sampled_all(processes, one.drop_last()).processes == processes);
    assert(Seq::<(i32, MonitorError)>::empty().push((reading.pid, e)) =~= seq![(reading.pid, e)]);
}

/// A batch never starts to follow a process, yields at most one usage or
/// failure for each reading, and yields usages and failures of processes
/// that were followed only.
pub proof fn lemma_batch_follows_no_new_process(
    processes: Map<i32, Process>,
    readings: Seq<ProcessReading>,
)
    ensures
        sampled_all(processes, readings).processes.dom().subset_of(processes.dom()),
        sampled_all(processes, readings).usages.len() + sampled_all(
            processes,
            readings,
        ).failures.len() <= readings.len(),
        forall|i: int|
            0 <= i < sampled_all(processes, readings).usages.len() ==> processes.contains_key(
                (#[trigger] sampled_all(processes, readings).usages[i]).0,
            ),
        forall|i: int|
            0 <= i < sampled_all(processes, readings).failures.len() ==> processes.contains_key(
                (#[trigger] sampled_all(processes, readings).failures[i]).0,
            ) && sampled_all(processes, readings).failures[i].1 != MonitorError::NotFound,
    decreases readings.len(),
{
    if readings.len() > 0 {
        lemma_batch_follows_no_new_process(processes, readings.drop_last());
        let before = sampled_all(processes, readings.drop_last());
        let (after, outcome) = sampled(before.processes, readings.last());
        assert(after.dom().subset_of(before.processes.dom()));
    }
}

/// Whether no process has two readings in a batch.
pub open spec fn one_reading_each(readings: Seq<ProcessReading>) -> bool {
    forall|i: int, j: int|
        0 <= i < j < readings.len() ==> (#[trigger] readings[i]).pid != (#[trigger] readings[j]).pid
}

/// Whether a batch holds a reading of a process.
pub open spec fn read_in(readings: Seq<ProcessReading>, pid: i32) -> bool {
    exists|i: int| 0 <= i < readings.len() && (#[trigger] readings[i]).pid == pid
}

/// Whether a reading says that its process is gone: its source does not
/// exist.
pub open spec fn gone(reading: ProcessReading) -> bool {
    process_read(reading.source, reading.when) == Err::<Process, MonitorError>(
        MonitorError::NotFound,
    )
}

/// How many readings of a batch say that their process is gone.
pub open spec fn gone_count(readings: Seq<ProcessReading>) -> nat
    decreases readings.len(),
{
    if readings.len() == 0 {
        0
    } else if gone(readings.last()) {
        gone_count(readings.drop_last()) + 1
    } else {
        gone_count(readings.drop_last())
    }
}

/// The reading that is kept of a process after a reading of it was taken:
/// the new one where it succeeded, else the one that was kept before.
pub open spec fn kept_after(kept: Process, reading: ProcessReading) -> Process {
    match process_read(reading.source, reading.when) {
        Ok(current) => current,
        Err(_) => kept,
    }
}

/// After a batch with at most one reading of each process: a process of
/// which the batch holds no reading is followed as before, with the reading
/// that was kept; a process of which it holds one is followed exactly where
/// it was followed before and the reading does not say that it is gone, and
/// then the reading that is kept is the new one where it succeeded, and the
/// one that was kept before where it failed.
pub proof fn lemma_batch_of_one_reading_each(
    processes: Map<i32, Process>,
    readings: Seq<ProcessReading>,
)
    requires
        one_reading_each(readings),
    ensures
        forall|pid: i32|
            !read_in(readings, pid) ==> (#[trigger] sampled_all(
                processes,
                readings,
            ).processes.contains_key(pid) <==> processes.contains_key(pid)),
        forall|pid: i32|
            !read_in(readings, pid) && processes.contains_key(pid) ==> #[trigger] sampled_all(
                processes,
                readings,
            ).processes[pid] == processes[pid],
        forall|i: int|
            0 <= i < readings.len() ==> (sampled_all(processes, readings).processes.contains_key(
                (#[trigger] readings[i]).pid,
            ) <==> processes.contains_key(readings[i].pid) && !gone(readings[i])),
        forall|i: int|
            0 <= i < readings.len() && sampled_all(processes, readings).processes.contains_key(
                (#[trigger] readings[i]).pid,
            ) ==> sampled_all(processes, readings).processes[readings[i].pid] == kept_after(
                processes[readings[i].pid],
                readings[i],
            ),
    decreases readings.len(),
{
    if readings.len() > 0 {
        let front = readings.drop_last();
        let last = readings.last();
        lemma_front_has_one_reading_each(readings);
        lemma_batch_of_one_reading_each(processes, front);
        let before = sampled_all(processes, front).processes;
        let after = sampled_all(processes, readings).processes;
        assert(after == sampled(before, last).0);
        assert forall|pid: i32| !read_in(readings, pid) implies (#[trigger] after.contains_key(pid)
            <==> processes.contains_key(pid)) && (processes.contains_key(pid) ==> after[pid]
            == processes[pid]) by {
            assert(readings[readings.len() - 1].pid != pid);
            assert(!read_in(front, pid)) by {
                if read_in(front, pid) {
                    let i = choose|i: int| 0 <= i < front.len() && (#[trigger] front[i]).pid == pid;
                    assert(readings[i].pid == pid);
                }
            }
        }
        assert forall|i: int| 0 <= i < readings.len() implies (after.contains_key(
            (#[trigger] readings[i]).pid,
        ) <==> processes.contains_key(readings[i].pid) && !gone(readings[i])) && (
        after.contains_key(readings[i].pid) ==> after[readings[i].pid] == kept_after(
            processes[readings[i].pid],
            readings[i],
        )) by {
            if i < readings.len() - 1 {
                assert(front[i] == readings[i]);
                assert(readings[i].pid != readings[readings.len() - 1].pid);
            }
        }
    }
}

/// A batch without its last reading still has at most one reading of each
/// process, and none of the process that the last reading is of.
pub proof fn lemma_front_has_one_reading_each(readings: Seq<ProcessReading>)
    requires
        one_reading_each(readings),
        readings.len() > 0,
    ensures
        one_reading_each(readings.drop_last()),
        !read_in(readings.drop_last(), readings.last().pid),
{
    let front = readings.drop_last();
    let last = readings.last();
    assert forall|i: int, j: int| 0 <= i < j < front.len() implies (#[trigger] front[i]).pid != (
    #[trigger] front[j]).pid by {
        assert(front[i] == readings[i] && front[j] == readings[j]);
    }
    if read_in(front, last.pid) {
        let i = choose|i: int| 0 <= i < front.len() && (#[trigger] front[i]).pid == last.pid;
        assert(front[i] == readings[i]);
        assert(readings[i].pid != readings[readings.len() - 1].pid);
    }
}

/// Whether every reading of a batch is of a process that is followed.
pub open spec fn all_followed(processes: Map<i32, Process>, readings: Seq<ProcessReading>) -> bool {
    forall|i: int| 0 <= i < readings.len() ==> processes.contains_key((#[trigger] readings[i]).pid)
}

/// A batch with one reading each, all of processes that are followed, leaves
/// as many processes fewer as readings say that their process is gone. Each
/// of the other readings yields a usage or a failure, and no failure is
/// yielded where each of them succeeded.
pub proof fn lemma_batch_counts(processes: Map<i32, Process>, readings: Seq<ProcessReading>)
    requires
        processes.dom().finite(),
        one_reading_each(readings),
        all_followed(processes, readings),
    ensures
        sampled_all(processes, readings).processes.dom().finite(),
        sampled_all(processes, readings).processes.len() + gone_count(readings)
            == processes.len(),
        sampled_all(processes, readings).usages.len() + sampled_all(
            processes,
            readings,
        ).failures.len() + gone_count(readings) == readings.len(),
        (forall|i: int|
            0 <= i < readings.len() && !gone(#[trigger] readings[i]) ==> process_read(
                readings[i].source,
                readings[i].when,
            ) is Ok) ==> sampled_all(processes, readings).failures.len() == 0,
    decreases readings.len(),
{
    if readings.len() > 0 {
        let front = readings.drop_last();
        let last = readings.last();
        lemma_front_has_one_reading_each(readings);
        assert(all_followed(processes, front)) by {
            assert forall|i: int| 0 <= i < front.len() implies processes.contains_key(
                (#[trigger] front[i]).pid,
            ) by {
                assert(front[i] == readings[i]);
            }
        }
        lemma_batch_counts(processes, front);
        lemma_batch_of_one_reading_each(processes, front);
        let before = sampled_all(processes, front).processes;
        let after = sampled_all(processes, readings).processes;
        assert(processes.contains_key(readings[readings.len() - 1].pid));
        assert(before.contains_key(last.pid));
        assert(after == sampled(before, last).0);
        match process_read(last.source, last.when) {
            Ok(current) => {
                assert(after.dom() =~= before.dom());
            },
            Err(e) => {},
        }
        if forall|i: int|
            0 <= i < readings.len() && !gone(#[trigger] readings[i]) ==> process_read(
                readings[i].source,
                readings[i].when,
            ) is Ok {
            assert forall|i: int| 0 <= i < front.len() && !gone(
                #[trigger] front[i],
            ) implies process_read(front[i].source, front[i].when) is Ok by {
                assert(front[i] == readings[i]);
            }
            assert(!gone(readings[readings.len() - 1]) ==> process_read(last.source, last.when) is Ok);
        }
    }
}

/// In a batch in which one reading says that its process is gone and no
/// other does, one reading says so.
pub proof fn lemma_one_gone(readings: Seq<ProcessReading>, k: int)
    requires
        0 <= k < readings.len(),
        forall|i: int| 0 <= i < readings.len() ==> (gone(#[trigger] readings[i]) <==> i == k),
    ensures
        gone_count(readings) == 1,
    decreases readings.len(),
{
    let front = readings.drop_last();
    assert(gone(readings[readings.len() - 1]) <==> readings.len() - 1 == k);
    if k == readings.len() - 1 {
        lemma_none_gone(front);
    } else {
        assert forall|i: int| 0 <= i < front.len() implies (gone(#[trigger] front[i]) <==> i
            == k) by {
            assert(front[i] == readings[i]);
        }
        lemma_one_gone(front, k);
    }
}

/// No more readings say that their process is gone than the batch holds,
/// and none where no reading says so.
pub proof fn lemma_none_gone(readings: Seq<ProcessReading>)
    ensures
        gone_count(readings) <= readings.len(),
        (forall|i: int| 0 <= i < readings.len() ==> !gone(#[trigger] readings[i])) ==> gone_count(
            readings,
        ) == 0,
    decreases readings.len(),
{
    if readings.len() > 0 {
        let front = readings.drop_last();
        lemma_none_gone(front);
        if forall|i: int| 0 <= i < readings.len() ==> !gone(#[trigger] readings[i]) {
            assert forall|i: int| 0 <= i < front.len() implies !gone(#[trigger] front[i]) by {
                assert(front[i] == readings[i]);
            }
            assert(!gone(readings[readings.len() - 1]));
        }
    }
}

/// A batch that holds one reading of each process that is followed, and of
/// no other, holds as many readings as processes are followed.
pub proof fn lemma_one_reading_of_each_process(
    processes: Map<i32, Process>,
    readings: Seq<ProcessReading>,
)
    requires
        processes.dom().finite(),
        one_reading_each(readings),
        all_followed(processes, readings),
        forall|pid: i32| processes.contains_key(pid) ==> read_in(readings, pid),
    ensures
        readings.len() == processes.len(),
    decreases readings.len(),
{
    if readings.len() == 0 {
        assert(processes.dom() =~= Set::<i32>::empty()) by {
            assert forall|pid: i32| !processes.dom().contains(pid) by {
                if processes.contains_key(pid) {
                    assert(read_in(readings, pid));
                }
            }
        }
    } else {
        let front = readings.drop_last();
        let last = readings.last();
        let others = processes.remove(last.pid);
        lemma_front_has_one_reading_each(readings);
        assert(processes.contains_key(readings[readings.len() - 1].pid));
        assert(all_followed(others, front)) by {
            assert forall|i: int| 0 <= i < front.len() implies others.contains_key(
                (#[trigger] front[i]).pid,
            ) by {
                assert(front[i] == readings[i]);
                assert(readings[i].pid != readings[readings.len() - 1].pid);
            }
        }
        assert forall|pid: i32| others.contains_key(pid) implies read_in(front, pid) by {
            assert(read_in(readings, pid));
            let i = choose|i: int| 0 <= i < readings.len() && (#[trigger] readings[i]).pid == pid;
            assert(i < readings.len() - 1);
            assert(front[i] == readings[i]);
        }
        lemma_one_reading_of_each_process(others, front);
    }
}

/// A batch holds one reading of each process that is followed and of no
/// other. One of the readings says that its process is gone; all the others
/// succeed. Then one process fewer is followed afterwards, the one that is
/// gone is not among them, and the batch yields one usage fewer than
/// processes were followed, and no failure.
pub proof fn lemma_batch_with_one_vanished_process(
    processes: Map<i32, Process>,
    readings: Seq<ProcessReading>,
    k: int,
)
    requires
        processes.dom().finite(),
        one_reading_each(readings),
        all_followed(processes, readings),
        forall|pid: i32| processes.contains_key(pid) ==> read_in(readings, pid),
        0 <= k < readings.len(),
        gone(readings[k]),
        forall|i: int|
            0 <= i < readings.len() && i != k ==> process_read(
                (#[trigger] readings[i]).source,
                readings[i].when,
            ) is Ok,
    ensures
        sampled_all(processes, readings).processes.len() == processes.len() - 1,
        !sampled_all(processes, readings).processes.contains_key(readings[k].pid),
        sampled_all(processes, readings).usages.len() == processes.len() - 1,
        sampled_all(processes, readings).failures.len() == 0,
{
    lemma_batch_counts(processes, readings);
    lemma_batch_of_one_reading_each(processes, readings);
    lemma_one_reading_of_each_process(processes, readings);
    assert forall|i: int| 0 <= i < readings.len() implies (gone(#[trigger] readings[i]) <==> i
        == k) by {
        if i != k {
            assert(process_read(readings[i].source, readings[i].when) is Ok);
        }
    }
    lemma_one_gone(readings, k);
}

/// What a list of usages stands for.
pub open spec fn usages_of(list: Seq<(i32, ProcessUsage)>) -> Seq<(i32, Ticks)> {
    Seq::new(list.len(), |i: int| (list[i].0, list[i].1@))
}

impl Monitor {
    /// The system-wide CPU buckets that were read last.
    pub closed spec fn last_cpu(&self) -> Seq<i32> {
        self.last_cpu@
    }

    /// The processes that are followed, each with its last reading.
    pub closed spec fn processes(&self) -> Map<i32, Process> {
        self.last_processes@
    }

    /// An engine that tracks no process and holds zero in every bucket.
    pub fn new() -> (m: Monitor)
        ensures
            m.last_cpu() == Seq::new(BUCKETS as nat, |i: int| 0i32),
            m.processes() == Map::<i32, Process>::empty(),
    {
        let last_cpu = Cpu::zero();
        proof {
            assert(last_cpu@ =~= Seq::new(BUCKETS as nat, |i: int| 0i32));
        }
        Monitor { last_cpu, last_processes: HashMap::new() }
    }

    /// Turns what was read of a process into a reading of it.
    pub fn get_process(source: &Reading, when: u128) -> (r: Result<Process, MonitorError>)
        ensures
            r == process_read(*source, when),
    {
        match source {
            Reading::Content(bytes) => match Process::from_file(bytes.as_slice(), when) {
                Ok(p) => Ok(p),
                Err(e) => Err(MonitorError::Parse(e)),
            },
            Reading::NotFound => Err(MonitorError::NotFound),
            Reading::Unreadable => Err(MonitorError::Io),
        }
    }

    /// Starts to track a process, with what was read of it as its first
    /// reading. Where that is no reading, nothing changes.
    pub fn track_process(&mut self, pid: i32, source: &Reading, when: u128) -> (r: Result<
        (),
        MonitorError,
    >)
        ensures
            final(self).last_cpu() == old(self).last_cpu(),
            match process_read(*source, when) {
                Ok(first) => r is Ok && final(self).processes() == old(self).processes().insert(
                    pid,
                    first,
                ),
                Err(e) => r == Err::<(), MonitorError>(e) && final(self).processes() == old(
                    self,
                ).processes(),
            },
    {
        match Monitor::get_process(source, when) {
            Ok(first) => {
                self.last_processes.insert(pid, first);
                Ok(())
            },
            Err(e) => Err(e),
        }
    }

    /// Takes a new reading of the system-wide CPU buckets: gives the usage
    /// since the reading that was kept, and keeps the new one in its place.
    /// Where the source gave no reading, the one that was kept stays.
    pub fn sample_system(&mut self, source: &Reading) -> (r: Result<i64, MonitorError>)
        ensures
            final(self).processes() == old(self).processes(),
            match system_read(*source) {
                Ok(buckets) => r matches Ok(usage) && usage == usage_percent(
                    old(self).last_cpu(),
                    buckets,
                ) && final(self).last_cpu() == buckets,
                Err(e) => r == Err::<i64, MonitorError>(e) && final(self).last_cpu() == old(
                    self,
                ).last_cpu(),
            },
    {
        match source {
            Reading::Content(bytes) => match Cpu::from_file(bytes.as_slice()) {
                Ok(cpu) => {
                    let usage: i64 = cpu.usage(&self.last_cpu);
                    self.last_cpu = cpu;
                    Ok(usage)
                },
                Err(e) => Err(MonitorError::Parse(e)),
            },
            _ => Err(MonitorError::Io),
        }
    }

    /// Takes a reading of the memory counters and gives the memory in use.
    pub fn sample_memory(source: &Reading) -> (r: Result<i64, MonitorError>)
        ensures
            match memory_read(*source) {
                Ok(used) => r matches Ok(usage) && usage == used,
                Err(e) => r == Err::<i64, MonitorError>(e),
            },
    {
        match source {
            Reading::Content(bytes) => match Memory::from_file(bytes.as_slice()) {
                Ok(m) => Ok(m.usage()),
                Err(e) => Err(MonitorError::Parse(e)),
            },
            _ => Err(MonitorError::Io),
        }
    }

    /// Samples the system: the CPU usage since the last sample, then the
    /// memory in use. The CPU reading is taken first and is kept even where
    /// the memory reading then fails.
    pub fn next(&mut self, stat: &Reading, meminfo: &Reading) -> (r: Result<
        (i64, i64),
        MonitorError,
    >)
        ensures
            final(self).processes() == old(self).processes(),
            match system_read(*stat) {
                Ok(buckets) => final(self).last_cpu() == buckets && match memory_read(*meminfo) {
                    Ok(used) => r matches Ok((cpu, memory)) && cpu == usage_percent(
                        old(self).last_cpu(),
                        buckets,
                    ) && memory == used,
                    Err(e) => r == Err::<(i64, i64), MonitorError>(e),
                },
                Err(e) => r == Err::<(i64, i64), MonitorError>(e) && final(self).last_cpu() == old(
                    self,
                ).last_cpu(),
            },
    {
        let cpu_usage: i64 = match self.sample_system(stat) {
            Ok(usage) => usage,
            Err(e) => {
                return Err(e);
            },
        };
        match Monitor::sample_memory(meminfo) {
            Ok(memory_usage) => Ok((cpu_usage, memory_usage)),
            Err(e) => Err(e),
        }
    }

    /// Takes one reading of a process. Of a process that is not followed it
    /// says nothing. Of one that is, it gives the usage since the reading
    /// that was kept and keeps the new one in its place, or, where the
    /// reading failed, says why. It stops following the process where the
    /// failure is that its source does not exist, and for no other failure.
    pub fn sample_process(&mut self, reading: &ProcessReading) -> (r: Result<
        Option<ProcessUsage>,
        MonitorError,
    >)
        ensures
            final(self).last_cpu() == old(self).last_cpu(),
            final(self).processes() == sampled(old(self).processes(), *reading).0,
            match r {
                Ok(Some(usage)) => sampled(old(self).processes(), *reading).1 == Some(
                    Ok::<Ticks, MonitorError>(usage@),
                ),
                Ok(None) => sampled(old(self).processes(), *reading).1 is None,
                Err(e) => sampled(old(self).processes(), *reading).1 == Some(
                    Err::<Ticks, MonitorError>(e),
                ),
            },
    {
        let last: Process = match self.last_processes.get(&reading.pid) {
            Some(last) => *last,
            None => {
                return Ok(None);
            },
        };
        match Monitor::get_process(&reading.source, reading.when) {
            Ok(current) => {
                let usage = current.usage(&last);
                self.last_processes.insert(reading.pid, current);
                Ok(Some(usage))
            },
            Err(MonitorError::NotFound) => {
                self.last_processes.remove(&reading.pid);
                Err(MonitorError::NotFound)
            },
            Err(e) => Err(e),
        }
    }

    /// Takes a batch of readings, one after the other. It gives the usages
    /// of the processes whose reading succeeded, and the failures of the
    /// readings that failed, each with the id of its process. A process
    /// whose source does not exist is gone: it is followed no longer and is
    /// listed neither with a usage nor with a failure. A process whose
    /// reading failed for another cause stays followed.
    pub fn next_processes(&mut self, readings: &Vec<ProcessReading>) -> (samples: ProcessSamples)
        ensures
            final(self).last_cpu() == old(self).last_cpu(),
            final(self).processes() == sampled_all(old(self).processes(), readings@).processes,
            usages_of(samples.usages@) == sampled_all(old(self).processes(), readings@).usages,
            samples.failures@ == sampled_all(old(self).processes(), readings@).failures,
    {
        let ghost before = self.processes();
        let ghost cpu = self.last_cpu();
        let mut usages: Vec<(i32, ProcessUsage)> = Vec::new();
        let mut failures: Vec<(i32, MonitorError)> = Vec::new();
        let mut at: usize = 0;
        proof {
            assert(usages_of(usages@) =~= Seq::<(i32, Ticks)>::empty());
        }
        while at < readings.len()
            invariant
                at <= readings.len(),
                self.last_cpu() == cpu,
                self.processes() == sampled_all(before, readings@.take(at as int)).processes,
                usages_of(usages@) == sampled_all(before, readings@.take(at as int)).usages,
                failures@ == sampled_all(before, readings@.take(at as int)).failures,
            decreases readings.len() - at,
        {
            let ghost listed = usages_of(usages@);
            proof {
                assert(readings@.take(at + 1).drop_last() =~= readings@.take(at as int));
                assert(readings@.take(at + 1).last() == readings@[at as int]);
            }
            match self.sample_process(&readings[at]) {
                Ok(Some(usage)) => {
                    usages.push((readings[at].pid, usage));
                    proof {
                        assert(usages_of(usages@) =~= listed.push((readings@[at as int].pid, usage@)));
                    }
                },
                Ok(None) => {},
                Err(MonitorError::NotFound) => {},
                Err(e) => {
                    failures.push((readings[at].pid, e));
                },
            }
            at = at + 1;
        }
        proof {
            assert(readings@.take(at as int) =~= readings@);
        }
        ProcessSamples { usages, failures }
    }

    /// The ids of the processes that are followed, each once, in no
    /// particular order.
    pub fn process_ids(&self) -> (pids: Vec<i32>)
        ensures
            pids@.no_duplicates(),
            pids@.to_set() == self.processes().dom(),
    {
        let mut pids: Vec<i32> = Vec::new();
        let ghost all = self.last_processes.keys().remaining();
        for pid in it: self.last_processes.keys()
            invariant
                it.seq() == all,
                pids@.len() == it.index(),
                forall|i: int| 0 <= i < pids@.len() ==> pids@[i] == *all[i],
        {
            pids.push(*pid);
        }
        proof {
            assert(pids@ =~= all.unref());
        }
        pids
    }

    /// Whether a process is followed.
    pub fn is_tracked(&self, pid: i32) -> (yes: bool)
        ensures
            yes == self.processes().contains_key(pid),
    {
        self.last_processes.contains_key(&pid)
    }

    /// How many processes are followed.
    pub fn process_count(&self) -> (count: usize)
        ensures
            count == self.processes().len(),
    {
        self.last_processes.len()
    }

    /// Stops tracking a process. Nothing changes where it is not tracked.
    pub fn untrack_process(&mut self, pid: i32)
        ensures
            final(self).last_cpu() == old(self).last_cpu(),
            final(self).processes() == old(self).processes().remove(pid),
    {
        self.last_processes.remove(&pid);
    }
}

} // verus!
