//! Finding the active log sequence, and replaying it into the file image.
use vstd::prelude::*;

use crate::bytes::{in_bounds, u32_le, u64_le};
use crate::guid::{lemma_wire_round_trip, lemma_wire_same, Guid};
use crate::log::LOG_ENTRY_SIGNATURE;
use crate::log::{
    data_count, lemma_data_count_prefix, DataDescriptor, DataSector, Descriptor, Entry, SECTOR,
};
use crate::Error;

verus! {

/// A run of log entries, tail (oldest) first, each with its offset from the
/// start of the log.
#[derive(Debug)]
pub struct LogSequence {
    /// The sequence number of the tail entry.
    pub sequence_number: u64,
    pub entries: Vec<(u64, Entry)>,
}

impl LogSequence {
    /// Non-empty, and the head's tail field names the offset of one of the entries.
    pub open spec fn valid(self) -> bool {
        &&& self.entries@.len() > 0
        &&& exists|i: int|
            0 <= i < self.entries@.len() && (#[trigger] self.entries@[i]).0
                == self.entries@.last().1.header.tail as u64
    }

    /// Every entry is stored at its offset in the log at `log_offset`, belongs
    /// to the log `guid`, and carries the sequence number after its predecessor's.
    pub open spec fn is_chain(self, s: Seq<u8>, log_offset: int, guid: Guid) -> bool {
        &&& forall|i: int|
            0 <= i < self.entries@.len() ==> (#[trigger] self.entries@[i]).1.read_from(
                s,
                log_offset + self.entries@[i].0,
            )
        &&& forall|i: int|
            0 <= i < self.entries@.len() ==> (#[trigger] self.entries@[i]).1.header.log_guid.same(
                guid,
            )
        &&& forall|i: int|
            0 < i < self.entries@.len() ==> (#[trigger] self.entries@[i]).1.header.sequence_number
                == self.entries@[i - 1].1.header.sequence_number + 1
        &&& self.entries@.len() > 0 ==> self.sequence_number
            == self.entries@[0].1.header.sequence_number
    }

    pub fn new() -> (r: Self)
        ensures
            r.entries@.len() == 0,
            r.sequence_number == 0,
    {
        LogSequence { sequence_number: 0, entries: Vec::new() }
    }

    /// The oldest entry.
    pub fn tail(&self) -> (r: Option<&Entry>)
        ensures
            self.entries@.len() == 0 ==> r is None,
            self.entries@.len() > 0 ==> (r matches Some(e) && *e == self.entries@[0].1),
    {
        if self.entries.len() == 0 {
            None
        } else {
            Some(&self.entries[0].1)
        }
    }

    /// The newest entry.
    pub fn head(&self) -> (r: Option<&Entry>)
        ensures
            self.entries@.len() == 0 ==> r is None,
            self.entries@.len() > 0 ==> (r matches Some(e) && *e == self.entries@.last().1),
    {
        if self.entries.len() == 0 {
            None
        } else {
            Some(&self.entries[self.entries.len() - 1].1)
        }
    }

    pub fn is_empty(&self) -> (r: bool)
        ensures
            r == (self.entries@.len() == 0),
    {
        self.entries.len() == 0
    }

    /// Whether the sequence is non-empty and its head's tail is one of its offsets.
    pub fn is_valid(&self) -> (r: bool)
        ensures
            r == self.valid(),
    {
        let n = self.entries.len();
        if n == 0 {
            return false;
        }
        let tail = self.entries[n - 1].1.header.tail as u64;
        let mut i: usize = 0;
        while i < n
            invariant
                n == self.entries@.len(),
                n > 0,
                tail == self.entries@.last().1.header.tail as u64,
                i <= n,
                forall|j: int| 0 <= j < i ==> (#[trigger] self.entries@[j]).0 != tail,
            decreases n - i,
        {
            if self.entries[i].0 == tail {
                return true;
            }
            i += 1;
        }
        false
    }
}

/// `x` is a multiple of the log sector size.
#[verifier::opaque]
pub open spec fn aligned(x: int) -> bool {
    x % 4096 == 0
}

proof fn lemma_aligned_sum(a: int, b: int)
    requires
        aligned(a),
        aligned(b),
    ensures
        aligned(a + b),
        aligned(a - b),
{
    reveal(aligned);
    vstd::arithmetic::div_mod::lemma_fundamental_div_mod(a, 4096);
    vstd::arithmetic::div_mod::lemma_fundamental_div_mod(b, 4096);
    vstd::arithmetic::div_mod::lemma_fundamental_div_mod_converse(
        a + b,
        4096,
        a / 4096 + b / 4096,
        0,
    );
    vstd::arithmetic::div_mod::lemma_fundamental_div_mod_converse(
        a - b,
        4096,
        a / 4096 - b / 4096,
        0,
    );
}

/// What the search keeps of each entry of a run: its offset in the log and
/// its sequence number.
pub open spec fn summary(entries: Seq<(u64, Entry)>) -> Seq<(int, int)> {
    entries.map_values(|p: (u64, Entry)| (p.0 as int, p.1.header.sequence_number as int))
}

/// An entry can be read at file offset `pos`.
pub open spec fn entry_at(s: Seq<u8>, pos: int) -> bool {
    exists|e: Entry| e.read_from(s, pos)
}

/// No entry starts at file offset `pos`: its first four bytes are not the
/// entry signature.
pub open spec fn no_entry_at(s: Seq<u8>, pos: int) -> bool {
    in_bounds(s, pos, 64) && u32_le(s, pos) != LOG_ENTRY_SIGNATURE
}

/// The run that the search reads from file offset `pos` on, within a log at
/// `log_offset` that ends at `log_end` and whose entries carry the GUID with
/// wire form `wire`, having kept `acc` so far, whose newest entry ends at
/// `head_end`. Gives the entries kept, the end of the newest, and whether
/// the run ended cleanly: at the end of the log, at an entry of another log,
/// or where no entry starts. It does not end cleanly where an entry starts
/// but cannot be read.
#[verifier::opaque]
pub open spec fn run(
    s: Seq<u8>,
    wire: Seq<u8>,
    log_offset: int,
    log_end: int,
    pos: int,
    acc: Seq<(int, int)>,
    head_end: int,
) -> (Seq<(int, int)>, int, bool)
    decreases log_end - pos,
{
    if pos >= log_end {
        (acc, head_end, true)
    } else if !entry_at(s, pos) {
        (acc, head_end, no_entry_at(s, pos))
    } else if s.subrange(pos + 32, pos + 48) != wire {
        (acc, head_end, true)
    } else {
        let len = u32_le(s, pos + 8) as int;
        let seq = u64_le(s, pos + 16) as int;
        let end = pos + len;
        if len == 0 || end > u64::MAX {
            (acc, head_end, true)
        } else {
            let take = acc.len() == 0 || (acc.last().1 < u64::MAX && seq == acc.last().1 + 1);
            let acc2 = if take {
                acc.push((pos - log_offset, seq))
            } else {
                acc
            };
            let he2 = if take {
                end
            } else {
                head_end
            };
            if end >= log_end {
                (acc2, he2, true)
            } else {
                run(s, wire, log_offset, log_end, end, acc2, he2)
            }
        }
    }
}

/// Adds `entry`, read at file offset `pos`, to the run when it is the run's
/// first entry or carries the next sequence number, and says whether it did.
fn extend_run(
    current: &mut LogSequence,
    image: &[u8],
    log_guid: Guid,
    log_offset: u64,
    pos: u64,
    entry: Entry,
) -> (pushed: bool)
    requires
        log_offset <= pos,
        old(current).is_chain(image@, log_offset as int, log_guid),
        old(current).entries@.len() == 0 ==> old(current).sequence_number == 0,
        entry.read_from(image@, pos as int),
        entry.header.log_guid.same(log_guid),
    ensures
        final(current).is_chain(image@, log_offset as int, log_guid),
        final(current).entries@.len() == 0 ==> final(current).sequence_number == 0,
        ({
            let acc = summary(old(current).entries@);
            let seq = entry.header.sequence_number as int;
            &&& pushed == (acc.len() == 0 || (acc.last().1 < u64::MAX && seq == acc.last().1 + 1))
            &&& final(current).entries@ == if pushed {
                old(current).entries@.push(((pos - log_offset) as u64, entry))
            } else {
                old(current).entries@
            }
            &&& summary(final(current).entries@) == if pushed {
                acc.push(((pos - log_offset) as int, seq))
            } else {
                acc
            }
        }),
{
    let ghost old_entries = current.entries@;
    let n = current.entries.len();
    let pushed = if n == 0 {
        current.sequence_number = entry.header.sequence_number;
        current.entries.push((pos - log_offset, entry));
        true
    } else if current.entries[n - 1].1.header.sequence_number < u64::MAX
        && entry.header.sequence_number == current.entries[n - 1].1.header.sequence_number + 1 {
        current.entries.push((pos - log_offset, entry));
        true
    } else {
        false
    };
    proof {
        assert forall|i: int| 0 <= i < current.entries@.len() implies (
        #[trigger] current.entries@[i]).1.read_from(image@, log_offset + current.entries@[i].0)
            by {
            if i < old_entries.len() {
                assert(current.entries@[i] == old_entries[i]);
            }
        }
        assert forall|i: int| 0 <= i < current.entries@.len() implies (
        #[trigger] current.entries@[i]).1.header.log_guid.same(log_guid) by {
            if i < old_entries.len() {
                assert(current.entries@[i] == old_entries[i]);
            }
        }
        let acc = summary(old_entries);
        if n > 0 {
            assert(acc.last() == acc[n - 1]);
        }
        assert(summary(current.entries@) =~= if pushed {
            acc.push(((pos - log_offset) as int, entry.header.sequence_number as int))
        } else {
            acc
        });
    }
    pushed
}

/// Reads the entry at `pos`, with what the search needs to know of the result.
fn read_entry_at(image: &[u8], pos: u64) -> (r: Result<Entry, Error>)
    ensures
        r matches Ok(e) ==> e.read_from(image@, pos as int),
        entry_at(image@, pos as int) ==> r is Ok,
        no_entry_at(image@, pos as int) ==> r == Err::<Entry, Error>(Error::InvalidSignature),
        r is Err ==> r == Err::<Entry, Error>(Error::Io) || r == Err::<Entry, Error>(
            Error::InvalidSignature,
        ) || r == Err::<Entry, Error>(Error::BadFormat),
{
    Entry::read(image, pos)
}

/// One step of `run`.
proof fn lemma_run_step(
    s: Seq<u8>,
    wire: Seq<u8>,
    log_offset: int,
    log_end: int,
    pos: int,
    acc: Seq<(int, int)>,
    head_end: int,
)
    ensures
        pos >= log_end ==> run(s, wire, log_offset, log_end, pos, acc, head_end) == (
            acc,
            head_end,
            true,
        ),
        pos < log_end && !entry_at(s, pos) ==> run(s, wire, log_offset, log_end, pos, acc, head_end)
            == (acc, head_end, no_entry_at(s, pos)),
        pos < log_end && entry_at(s, pos) && s.subrange(pos + 32, pos + 48) != wire ==> run(
            s,
            wire,
            log_offset,
            log_end,
            pos,
            acc,
            head_end,
        ) == (acc, head_end, true),
        pos < log_end && entry_at(s, pos) && s.subrange(pos + 32, pos + 48) == wire ==> {
            let len = u32_le(s, pos + 8) as int;
            let seq = u64_le(s, pos + 16) as int;
            let end = pos + len;
            let take = acc.len() == 0 || (acc.last().1 < u64::MAX && seq == acc.last().1 + 1);
            let acc2 = if take {
                acc.push((pos - log_offset, seq))
            } else {
                acc
            };
            let he2 = if take {
                end
            } else {
                head_end
            };
            let r = run(s, wire, log_offset, log_end, pos, acc, head_end);
            &&& (len == 0 || end > u64::MAX) ==> r == (acc, head_end, true)
            &&& !(len == 0 || end > u64::MAX) && end >= log_end ==> r == (acc2, he2, true)
            &&& !(len == 0 || end > u64::MAX) && end < log_end ==> r == run(
                s,
                wire,
                log_offset,
                log_end,
                end,
                acc2,
                he2,
            )
        },
{
    reveal_with_fuel(run, 1);
}

/// Reads the run of entries that starts at file offset `tail`, within a log
/// that ends at `log_end`: entries of log `log_guid` one after another, those
/// whose sequence number does not follow the last one kept being passed over.
/// An entry of another log, a bad signature or the end of the log ends the
/// run. Returns the run and the file offset just past its newest entry.
#[verifier::rlimit(100)]
#[verifier::spinoff_prover]
fn scan_run(image: &[u8], log_guid: Guid, log_offset: u64, log_end: u64, tail: u64) -> (r: Result<
    (LogSequence, u64),
    Error,
>)
    requires
        log_offset <= tail < log_end,
        aligned(tail - log_offset),
    ensures
        r matches Ok((q, head_end)) ==> {
            &&& aligned(head_end - log_offset)
            &&& head_end >= tail
            &&& forall|i: int|
                0 <= i < q.entries@.len() ==> aligned((#[trigger] q.entries@[i]).0 as int)
            &&& q.is_chain(image@, log_offset as int, log_guid)
            &&& forall|i: int|
                0 <= i < q.entries@.len() ==> (#[trigger] q.entries@[i]).0 < log_end - log_offset
            &&& q.entries@.len() > 0 ==> head_end > tail
            &&& q.entries@.len() > 0 ==> q.sequence_number == q.entries@[0].1.header.sequence_number
            &&& q.entries@.len() == 0 ==> q.sequence_number == 0
            &&& ({
                let sr = run(
                    image@,
                    log_guid.wire(),
                    log_offset as int,
                    log_end as int,
                    tail as int,
                    seq![],
                    tail as int,
                );
                sr.2 ==> summary(q.entries@) == sr.0 && head_end == sr.1
            })
        },
        r is Err ==> !run(
            image@,
            log_guid.wire(),
            log_offset as int,
            log_end as int,
            tail as int,
            seq![],
            tail as int,
        ).2,
        r is Err ==> r == Err::<(LogSequence, u64), Error>(Error::Io) || r == Err::<
            (LogSequence, u64),
            Error,
        >(Error::BadFormat),
{
    let mut current = LogSequence::new();
    let mut head_end = tail;
    let mut pos = tail;
    assert(summary(current.entries@) =~= seq![]);
    proof {
        lemma_run_step(image@, log_guid.wire(), log_offset as int, log_end as int, log_end as int, seq![], tail as int);
    }
    while pos < log_end
        invariant_except_break
            run(
                image@,
                log_guid.wire(),
                log_offset as int,
                log_end as int,
                tail as int,
                seq![],
                tail as int,
            ) == run(
                image@,
                log_guid.wire(),
                log_offset as int,
                log_end as int,
                pos as int,
                summary(current.entries@),
                head_end as int,
            ),
        invariant
            pos < log_end,
            log_offset <= tail <= pos,
            current.is_chain(image@, log_offset as int, log_guid),
            current.entries@.len() > 0 ==> head_end > tail,
            aligned(pos - log_offset),
            aligned(head_end - log_offset),
            head_end >= tail,
            forall|i: int|
                0 <= i < current.entries@.len() ==> aligned(
                    (#[trigger] current.entries@[i]).0 as int,
                ),
            forall|i: int|
                0 <= i < current.entries@.len() ==> (#[trigger] current.entries@[i]).0 < log_end
                    - log_offset,
            current.entries@.len() > 0 ==> current.sequence_number
                == current.entries@[0].1.header.sequence_number,
            current.entries@.len() == 0 ==> current.sequence_number == 0,
        ensures
            ({
                let sr = run(
                    image@,
                    log_guid.wire(),
                    log_offset as int,
                    log_end as int,
                    tail as int,
                    seq![],
                    tail as int,
                );
                sr.2 ==> summary(current.entries@) == sr.0 && head_end == sr.1
            }),
        decreases log_end - pos,
    {
        let ghost acc = summary(current.entries@);
        let ghost he0 = head_end as int;
        proof {
            lemma_run_step(
                image@,
                log_guid.wire(),
                log_offset as int,
                log_end as int,
                pos as int,
                acc,
                he0,
            );
        }
        match read_entry_at(image, pos) {
            Ok(entry) => {
                proof {
                    assert(entry_at(image@, pos as int));
                    let g = entry.header.log_guid;
                    lemma_wire_round_trip(image@.subrange(pos + 32, pos + 48), g);
                    lemma_wire_same(g, log_guid);
                    assert(image@.subrange(pos + 32, pos + 48) =~= image@.subrange(pos as int, pos + 64).subrange(32, 48));
                }
                if entry.header.log_guid != log_guid {
                    break;
                }
                let length = entry.header.entry_length as u64;
                proof {
                    reveal(aligned);
                    assert(aligned(length as int));
                    lemma_aligned_sum(pos - log_offset, length as int);
                }
                if length == 0 || length > u64::MAX - pos {
                    break;
                }
                let end = pos + length;
                let pushed = extend_run(&mut current, image, log_guid, log_offset, pos, entry);
                if pushed {
                    head_end = end;
                }
                if end >= log_end {
                    break;
                }
                pos = end;
            },
            Err(Error::InvalidSignature) => {
                break;
            },
            Err(e) => {
                assert(!entry_at(image@, pos as int));
                return Err(e);
            },
        }
    }
    Ok((current, head_end))
}

pub open spec fn next_tail_spec(tail: int, head_end: int, step: bool, log_offset: int, length: int) -> int {
    if step {
        if tail - log_offset >= length - 4096 {
            tail - (length - 4096)
        } else {
            tail + 4096
        }
    } else if head_end >= log_offset + length {
        head_end - length
    } else {
        head_end
    }
}

/// A run is valid: it is not empty and the tail field of its newest entry
/// is the offset of one of its entries.
pub open spec fn summary_valid(s: Seq<u8>, log_offset: int, cur: Seq<(int, int)>) -> bool {
    &&& cur.len() > 0
    &&& exists|i: int|
        0 <= i < cur.len() && (#[trigger] cur[i]).0 == u32_le(s, log_offset + cur.last().0 + 12)
}

/// The search for the active sequence of a log at `log_offset`, `length`
/// bytes long, from candidate tail `tail` on, `best` being the best valid
/// run so far: each tail starts a run; a valid run with a higher sequence
/// number than the best replaces it; the next tail is one sector further
/// after an empty or invalid run and the end of the run's head after a valid
/// one, wrapping round the log; the search stops once the tail moves back.
/// Gives the best run and whether every run ended cleanly.
#[verifier::opaque]
pub open spec fn search(
    s: Seq<u8>,
    wire: Seq<u8>,
    log_offset: int,
    length: int,
    tail: int,
    best: Seq<(int, int)>,
) -> (Seq<(int, int)>, bool)
    decreases log_offset + length - tail,
{
    if tail < log_offset || tail >= log_offset + length {
        (best, true)
    } else {
        let r = run(s, wire, log_offset, log_offset + length, tail, seq![], tail);
        if !r.2 {
            (best, false)
        } else {
            let cur = r.0;
            let valid = summary_valid(s, log_offset, cur);
            let cur_seq = if cur.len() > 0 {
                cur[0].1
            } else {
                0
            };
            let best_seq = if best.len() > 0 {
                best[0].1
            } else {
                0
            };
            let best2 = if valid && cur_seq > best_seq {
                cur
            } else {
                best
            };
            let next = next_tail_spec(tail, r.1, cur.len() == 0 || !valid, log_offset, length);
            if next <= tail || next >= log_offset + length {
                (best2, true)
            } else {
                search(s, wire, log_offset, length, next, best2)
            }
        }
    }
}

/// One step of `search`.
proof fn lemma_search_step(
    s: Seq<u8>,
    wire: Seq<u8>,
    log_offset: int,
    length: int,
    tail: int,
    best: Seq<(int, int)>,
)
    requires
        log_offset <= tail < log_offset + length,
    ensures
        ({
            let r = run(s, wire, log_offset, log_offset + length, tail, seq![], tail);
            let cur = r.0;
            let valid = summary_valid(s, log_offset, cur);
            let cur_seq = if cur.len() > 0 {
                cur[0].1
            } else {
                0
            };
            let best_seq = if best.len() > 0 {
                best[0].1
            } else {
                0
            };
            let best2 = if valid && cur_seq > best_seq {
                cur
            } else {
                best
            };
            let next = next_tail_spec(tail, r.1, cur.len() == 0 || !valid, log_offset, length);
            let found = search(s, wire, log_offset, length, tail, best);
            &&& !r.2 ==> found == (best, false)
            &&& r.2 && (next <= tail || next >= log_offset + length) ==> found == (best2, true)
            &&& r.2 && !(next <= tail || next >= log_offset + length) ==> found == search(
                s,
                wire,
                log_offset,
                length,
                next,
                best2,
            )
        }),
{
    reveal_with_fuel(search, 1);
}

/// Where the search for runs goes on: one sector further (wrapping round
/// the log) after an empty or invalid run, else the end of the run's head
/// (wrapping round the log).
fn next_tail(current_tail: u64, head_end: u64, step: bool, log_offset: u64, length: u64) -> (r: u64)
    requires
        log_offset <= current_tail < log_offset + length,
        log_offset + length <= u64::MAX,
        length >= SECTOR,
        aligned(length as int),
        aligned(current_tail - log_offset),
        aligned(head_end - log_offset),
        head_end >= log_offset,
    ensures
        aligned(r - log_offset),
        r == next_tail_spec(
            current_tail as int,
            head_end as int,
            step,
            log_offset as int,
            length as int,
        ),
        r == if step {
            if current_tail - log_offset >= length - SECTOR {
                current_tail - (length - SECTOR)
            } else {
                current_tail + SECTOR
            }
        } else if head_end >= log_offset + length {
            head_end - length
        } else {
            head_end as int
        },
{
    proof {
        assert(aligned(4096)) by {
            reveal(aligned);
        }
        let t = current_tail - log_offset;
        lemma_aligned_sum(t, 4096);
        lemma_aligned_sum(t - 4096, length as int);
        lemma_aligned_sum(t + 4096, length as int);
        lemma_aligned_sum(head_end - log_offset, length as int);
    }
    if step {
        if current_tail - log_offset >= length - SECTOR {
            current_tail - (length - SECTOR)
        } else {
            current_tail + SECTOR
        }
    } else if head_end >= log_offset + length {
        head_end - length
    } else {
        head_end
    }
}

/// Finds the active sequence of the log stored at `log_offset`, `log_length`
/// bytes long, whose entries carry `log_guid`.
///
/// Each candidate tail starts a run (see `scan_run`). A valid run with a
/// higher sequence number than the best so far replaces it. The next tail is
/// one sector further after an empty or invalid run, and the end of the run's
/// head after a valid one, wrapping round the log; the search stops once the
/// tail moves back. The chosen sequence must not promise more of the file
/// than the file holds.
#[verifier::rlimit(60)]
pub fn find_log(image: &[u8], log_guid: Guid, log_offset: u64, log_length: u32) -> (r: Result<
    LogSequence,
    Error,
>)
    ensures
        r matches Ok(q) ==> {
            &&& q.valid()
            &&& q.is_chain(image@, log_offset as int, log_guid)
            &&& forall|i: int|
                0 <= i < q.entries@.len() ==> (#[trigger] q.entries@[i]).0 < log_length
                    && q.entries@[i].0 % 4096 == 0
            &&& q.entries@.last().1.header.flushed_file_offset <= image@.len()
        },
        (log_length as u64) < SECTOR ==> r == Err::<LogSequence, Error>(Error::Corrupt),
        (log_length as u64) >= SECTOR && log_length % 4096 != 0 ==> r == Err::<LogSequence, Error>(
            Error::BadFormat,
        ),
        r is Err ==> r == Err::<LogSequence, Error>(Error::Io) || r == Err::<LogSequence, Error>(
            Error::BadFormat,
        ) || r == Err::<LogSequence, Error>(Error::Corrupt),
        ({
            let found = search(
                image@,
                log_guid.wire(),
                log_offset as int,
                log_length as int,
                log_offset as int,
                seq![],
            );
            let best = found.0;
            (log_length >= 4096 && log_length % 4096 == 0 && log_offset + log_length <= u64::MAX
                && found.1) ==> {
                &&& best.len() == 0 ==> r == Err::<LogSequence, Error>(Error::Corrupt)
                &&& best.len() > 0 && u64_le(image@, log_offset + best.last().0 + 48)
                    > image@.len() ==> r == Err::<LogSequence, Error>(Error::Corrupt)
                &&& best.len() > 0 && u64_le(image@, log_offset + best.last().0 + 48)
                    <= image@.len() ==> (r matches Ok(q) && summary(q.entries@) == best)
            }
        }),
{
    let length = log_length as u64;
    if length < SECTOR {
        return Err(Error::Corrupt);
    }
    if length % SECTOR != 0 {
        return Err(Error::BadFormat);
    }
    proof {
        reveal(aligned);
        assert(aligned(length as int));
        assert(aligned(0));
        assert(aligned(4096));
    }
    if log_offset > u64::MAX - length {
        return Err(Error::Io);
    }
    let log_end = log_offset + length;
    let mut candidate = LogSequence::new();
    let mut current_tail = log_offset;
    let ghost wire = log_guid.wire();
    let ghost found = search(image@, wire, log_offset as int, length as int, log_offset as int, seq![]);
    assert(summary(candidate.entries@) =~= seq![]);
    loop
        invariant_except_break
            found.1 ==> found == search(
                image@,
                wire,
                log_offset as int,
                length as int,
                current_tail as int,
                summary(candidate.entries@),
            ),
        invariant
            log_end == log_offset + length,
            length == log_length as u64,
            length >= SECTOR,
            log_offset <= current_tail < log_end,
            candidate.is_chain(image@, log_offset as int, log_guid),
            candidate.entries@.len() > 0 ==> candidate.valid(),
            forall|i: int|
                0 <= i < candidate.entries@.len() ==> (#[trigger] candidate.entries@[i]).0
                    < log_length && aligned(candidate.entries@[i].0 as int),
            aligned(length as int),
            length % SECTOR == 0,
            aligned(current_tail - log_offset),
            candidate.entries@.len() > 0 ==> candidate.sequence_number
                == candidate.entries@[0].1.header.sequence_number,
            candidate.entries@.len() == 0 ==> candidate.sequence_number == 0,
            wire == log_guid.wire(),
            found == search(image@, wire, log_offset as int, length as int, log_offset as int, seq![]),
        ensures
            found.1 ==> found == (summary(candidate.entries@), true),
        decreases log_end - current_tail,
    {
        let ghost best = summary(candidate.entries@);
        proof {
            lemma_search_step(image@, wire, log_offset as int, length as int, current_tail as int, best);
        }
        let (current, head_end) = scan_run(image, log_guid, log_offset, log_end, current_tail)?;
        let valid = current.is_valid();
        let empty = current.is_empty();
        proof {
            let cur = summary(current.entries@);
            if current.entries@.len() > 0 {
                let last = current.entries@.last();
                assert(last == current.entries@[current.entries@.len() - 1]);
                assert(last.1.read_from(image@, log_offset + last.0));
                assert(cur.last().0 == last.0);
                if valid {
                    let i = choose|i: int|
                        0 <= i < current.entries@.len() && (#[trigger] current.entries@[i]).0
                            == last.1.header.tail as u64;
                    assert(cur[i].0 == u32_le(image@, log_offset + cur.last().0 + 12));
                }
                if summary_valid(image@, log_offset as int, cur) {
                    let i = choose|i: int|
                        0 <= i < cur.len() && (#[trigger] cur[i]).0 == u32_le(
                            image@,
                            log_offset + cur.last().0 + 12,
                        );
                    assert(current.entries@[i].0 == last.1.header.tail as u64);
                }
            }
            assert(valid == summary_valid(image@, log_offset as int, cur));
        }
        if valid && current.sequence_number > candidate.sequence_number {
            candidate = current;
        }
        let next = next_tail(current_tail, head_end, empty || !valid, log_offset, length);
        // The tail wrapped round to the start, or did not move: stop.
        if next <= current_tail || next >= log_end {
            break;
        }
        current_tail = next;
    }
    if candidate.entries.len() == 0 {
        return Err(Error::Corrupt);
    }
    let flushed = candidate.entries[candidate.entries.len() - 1].1.header.flushed_file_offset;
    proof {
        let last = candidate.entries@.last();
        assert(last == candidate.entries@[candidate.entries@.len() - 1]);
        assert(last.1.read_from(image@, log_offset + last.0));
    }
    if (image.len() as u64) < flushed {
        return Err(Error::Corrupt);
    }
    proof {
        reveal(aligned);
    }
    Ok(candidate)
}

/// `s` with `data` written over it from offset `off`.
pub open spec fn write(s: Seq<u8>, off: int, data: Seq<u8>) -> Seq<u8> {
    Seq::new(s.len(), |i: int| if off <= i < off + data.len() { data[i - off] } else { s[i] })
}

pub open spec fn zeros(n: int) -> Seq<u8> {
    Seq::new(n as nat, |i: int| 0u8)
}

/// The sector that a data descriptor writes: its eight leading bytes, the
/// payload of its data sector, and its four trailing bytes.
pub open spec fn data_write(d: DataDescriptor, sector: DataSector) -> Seq<u8> {
    d.leading_bytes@ + sector.data@ + d.trailing_bytes@
}

/// A descriptor may be applied: it belongs to the entry numbered
/// `sequence_number`, and what it writes lies inside a file of `len` bytes.
pub open spec fn descriptor_ok(d: Descriptor, sequence_number: u64, len: int) -> bool {
    match d {
        Descriptor::Zero(z) => z.sequence_number == sequence_number && z.file_offset
            + z.zero_length <= len,
        Descriptor::Data(x) => x.sequence_number == sequence_number && x.file_offset + SECTOR
            <= len,
    }
}

pub open spec fn entry_ok(e: Entry, len: int) -> bool {
    forall|i: int|
        0 <= i < e.descriptors@.len() ==> descriptor_ok(
            #[trigger] e.descriptors@[i],
            e.header.sequence_number,
            len,
        )
}

pub open spec fn entries_ok(entries: Seq<(u64, Entry)>, len: int) -> bool {
    forall|j: int| 0 <= j < entries.len() ==> entry_ok((#[trigger] entries[j]).1, len)
}

/// An entry carries one data sector of 4084 bytes per data descriptor.
pub open spec fn entry_well_formed(e: Entry) -> bool {
    &&& e.data_sectors@.len() == data_count(e.descriptors@)
    &&& forall|k: int|
        0 <= k < e.data_sectors@.len() ==> (#[trigger] e.data_sectors@[k]).data@.len() == 4084
}

/// `s` after applying descriptors `i..` of an entry, the next data sector being `k`.
pub open spec fn replay_from(
    s: Seq<u8>,
    descs: Seq<Descriptor>,
    sectors: Seq<DataSector>,
    i: int,
    k: int,
) -> Seq<u8>
    decreases descs.len() - i,
{
    if i >= descs.len() || i < 0 {
        s
    } else {
        match descs[i] {
            Descriptor::Zero(z) => replay_from(
                write(s, z.file_offset as int, zeros(z.zero_length as int)),
                descs,
                sectors,
                i + 1,
                k,
            ),
            Descriptor::Data(d) => replay_from(
                write(s, d.file_offset as int, data_write(d, sectors[k])),
                descs,
                sectors,
                i + 1,
                k + 1,
            ),
        }
    }
}

/// `s` after applying entries `j..`, each tail to head.
pub open spec fn replay_entries(s: Seq<u8>, entries: Seq<(u64, Entry)>, j: int) -> Seq<u8>
    decreases entries.len() - j,
{
    if j >= entries.len() || j < 0 {
        s
    } else {
        replay_entries(
            replay_from(s, entries[j].1.descriptors@, entries[j].1.data_sectors@, 0, 0),
            entries,
            j + 1,
        )
    }
}

/// Writes `data` into the image at file offset `off`.
fn write_at(image: &mut Vec<u8>, off: u64, data: &[u8])
    requires
        off + data@.len() <= old(image)@.len(),
    ensures
        final(image)@ == write(old(image)@, off as int, data@),
{
    let total = image.len();
    let mut j: usize = 0;
    while j < data.len()
        invariant
            total == image@.len(),
            off + data@.len() <= image@.len(),
            image@.len() == old(image)@.len(),
            j <= data@.len(),
            forall|i: int|
                0 <= i < image@.len() ==> #[trigger] image@[i] == if off <= i < off + j {
                    data@[i - off]
                } else {
                    old(image)@[i]
                },
        decreases data@.len() - j,
    {
        image.set(off as usize + j, data[j]);
        j += 1;
    }
    assert(image@ =~= write(old(image)@, off as int, data@));
}

/// Writes `len` zero bytes into the image at file offset `off`.
fn zero_at(image: &mut Vec<u8>, off: u64, len: u64)
    requires
        off + len <= old(image)@.len(),
    ensures
        final(image)@ == write(old(image)@, off as int, zeros(len as int)),
{
    let total = image.len();
    let mut j: u64 = 0;
    while j < len
        invariant
            total == image@.len(),
            off + len <= image@.len(),
            image@.len() == old(image)@.len(),
            j <= len,
            forall|i: int|
                0 <= i < image@.len() ==> #[trigger] image@[i] == if off <= i < off + j {
                    0u8
                } else {
                    old(image)@[i]
                },
        decreases len - j,
    {
        image.set((off + j) as usize, 0u8);
        j += 1;
    }
    assert(image@ =~= write(old(image)@, off as int, zeros(len as int)));
}

/// Applies the descriptors of one entry, in order.
fn replay_entry(image: &mut Vec<u8>, e: &Entry) -> (r: Result<(), Error>)
    requires
        entry_well_formed(*e),
    ensures
        final(image)@.len() == old(image)@.len(),
        entry_ok(*e, old(image)@.len() as int) ==> r is Ok && final(image)@ == replay_from(
            old(image)@,
            e.descriptors@,
            e.data_sectors@,
            0,
            0,
        ),
        !entry_ok(*e, old(image)@.len() as int) ==> r == Err::<(), Error>(Error::BadFormat),
{
    let ghost len = image@.len() as int;
    let ghost target = replay_from(old(image)@, e.descriptors@, e.data_sectors@, 0, 0);
    let n = image.len() as u64;
    let sequence_number = e.header.sequence_number;
    let sectors = e.data_sectors.len();
    let mut k: usize = 0;
    let mut i: usize = 0;
    while i < e.descriptors.len()
        invariant
            sectors == e.data_sectors@.len(),
            entry_well_formed(*e),
            len == old(image)@.len(),
            target == replay_from(old(image)@, e.descriptors@, e.data_sectors@, 0, 0),
            image@.len() == len,
            n == len,
            sequence_number == e.header.sequence_number,
            i <= e.descriptors@.len(),
            k == data_count(e.descriptors@.subrange(0, i as int)),
            forall|j: int|
                0 <= j < i ==> descriptor_ok(#[trigger] e.descriptors@[j], sequence_number, len),
            entry_ok(*e, len) ==> replay_from(image@, e.descriptors@, e.data_sectors@, i as int, k as int)
                == target,
        decreases e.descriptors@.len() - i,
    {
        proof {
            lemma_data_count_prefix(e.descriptors@, i as int);
            lemma_data_count_prefix(e.descriptors@, i + 1);
        }
        match &e.descriptors[i] {
            Descriptor::Zero(z) => {
                if z.sequence_number != sequence_number || z.file_offset > n || z.zero_length > n
                    - z.file_offset {
                    assert(!descriptor_ok(e.descriptors@[i as int], sequence_number, len));
                    return Err(Error::BadFormat);
                }
                zero_at(image, z.file_offset, z.zero_length);
            },
            Descriptor::Data(d) => {
                if d.sequence_number != sequence_number || d.file_offset > n || SECTOR > n
                    - d.file_offset {
                    assert(!descriptor_ok(e.descriptors@[i as int], sequence_number, len));
                    return Err(Error::BadFormat);
                }
                let sector = &e.data_sectors[k];
                let ghost before = image@;
                write_at(image, d.file_offset, vstd::array::array_as_slice(&d.leading_bytes));
                write_at(image, d.file_offset + 8, sector.data.as_slice());
                write_at(
                    image,
                    d.file_offset + 4092,
                    vstd::array::array_as_slice(&d.trailing_bytes),
                );
                assert(image@ =~= write(before, d.file_offset as int, data_write(*d, *sector)));
                k += 1;
            },
        }
        i += 1;
    }
    proof {
        assert(e.descriptors@.subrange(0, e.descriptors@.len() as int) =~= e.descriptors@);
    }
    Ok(())
}

/// Replays a log sequence into the image: each entry from tail to head, each
/// descriptor in order. A descriptor of another entry, or one that writes
/// past the end of the file, fails the replay.
pub fn replay(image: &mut Vec<u8>, q: &LogSequence) -> (r: Result<(), Error>)
    requires
        forall|j: int|
            0 <= j < q.entries@.len() ==> entry_well_formed((#[trigger] q.entries@[j]).1),
    ensures
        final(image)@.len() == old(image)@.len(),
        entries_ok(q.entries@, old(image)@.len() as int) ==> r is Ok && final(image)@
            == replay_entries(old(image)@, q.entries@, 0),
        !entries_ok(q.entries@, old(image)@.len() as int) ==> r == Err::<(), Error>(
            Error::BadFormat,
        ),
{
    let ghost len = image@.len() as int;
    let ghost target = replay_entries(old(image)@, q.entries@, 0);
    let mut j: usize = 0;
    while j < q.entries.len()
        invariant
            forall|t: int|
                0 <= t < q.entries@.len() ==> entry_well_formed((#[trigger] q.entries@[t]).1),
            len == old(image)@.len(),
            target == replay_entries(old(image)@, q.entries@, 0),
            image@.len() == len,
            j <= q.entries@.len(),
            forall|t: int| 0 <= t < j ==> entry_ok((#[trigger] q.entries@[t]).1, len),
            entries_ok(q.entries@, len) ==> replay_entries(image@, q.entries@, j as int) == target,
        decreases q.entries@.len() - j,
    {
        let res = replay_entry(image, &q.entries[j].1);
        if res.is_err() {
            return Err(Error::BadFormat);
        }
        j += 1;
    }
    Ok(())
}

/// After the descriptors of an entry are applied to two images of one
/// length, each byte is either the same in both results, or left as it was
/// in each: a byte of the result depends on the same byte of the input only.
proof fn lemma_replay_from_bytewise(
    s: Seq<u8>,
    t: Seq<u8>,
    descs: Seq<Descriptor>,
    sectors: Seq<DataSector>,
    i: int,
    k: int,
    x: int,
)
    requires
        s.len() == t.len(),
        0 <= x < s.len(),
    ensures
        replay_from(s, descs, sectors, i, k).len() == s.len(),
        replay_from(t, descs, sectors, i, k).len() == t.len(),
        replay_from(s, descs, sectors, i, k)[x] == replay_from(t, descs, sectors, i, k)[x] || (
        replay_from(s, descs, sectors, i, k)[x] == s[x] && replay_from(t, descs, sectors, i, k)[x]
            == t[x]),
    decreases descs.len() - i,
{
    if i < descs.len() && i >= 0 {
        match descs[i] {
            Descriptor::Zero(z) => {
                let d = zeros(z.zero_length as int);
                lemma_replay_from_bytewise(
                    write(s, z.file_offset as int, d),
                    write(t, z.file_offset as int, d),
                    descs,
                    sectors,
                    i + 1,
                    k,
                    x,
                );
            },
            Descriptor::Data(dd) => {
                let d = data_write(dd, sectors[k]);
                lemma_replay_from_bytewise(
                    write(s, dd.file_offset as int, d),
                    write(t, dd.file_offset as int, d),
                    descs,
                    sectors,
                    i + 1,
                    k + 1,
                    x,
                );
            },
        }
    }
}

proof fn lemma_replay_entries_bytewise(s: Seq<u8>, t: Seq<u8>, entries: Seq<(u64, Entry)>, j: int, x: int)
    requires
        s.len() == t.len(),
        0 <= x < s.len(),
    ensures
        replay_entries(s, entries, j).len() == s.len(),
        replay_entries(t, entries, j).len() == t.len(),
        replay_entries(s, entries, j)[x] == replay_entries(t, entries, j)[x] || (replay_entries(
            s,
            entries,
            j,
        )[x] == s[x] && replay_entries(t, entries, j)[x] == t[x]),
    decreases entries.len() - j,
{
    if j < entries.len() && j >= 0 {
        let e = entries[j].1;
        let s1 = replay_from(s, e.descriptors@, e.data_sectors@, 0, 0);
        let t1 = replay_from(t, e.descriptors@, e.data_sectors@, 0, 0);
        lemma_replay_from_bytewise(s, t, e.descriptors@, e.data_sectors@, 0, 0, x);
        lemma_replay_entries_bytewise(s1, t1, entries, j + 1, x);
    }
}

/// Replaying a log sequence into an image that it was already replayed into
/// changes no byte: every byte that the replay writes gets the same value
/// whatever the image held before.
pub proof fn lemma_replay_idempotent(s: Seq<u8>, entries: Seq<(u64, Entry)>)
    ensures
        replay_entries(replay_entries(s, entries, 0), entries, 0) == replay_entries(s, entries, 0),
{
    let once = replay_entries(s, entries, 0);
    let twice = replay_entries(once, entries, 0);
    lemma_replay_entries_length(s, entries, 0);
    lemma_replay_entries_length(once, entries, 0);
    assert forall|x: int| 0 <= x < s.len() implies twice[x] == once[x] by {
        lemma_replay_entries_bytewise(s, once, entries, 0, x);
    }
    assert(twice =~= once);
}

proof fn lemma_replay_entries_length(s: Seq<u8>, entries: Seq<(u64, Entry)>, j: int)
    ensures
        replay_entries(s, entries, j).len() == s.len(),
    decreases entries.len() - j,
{
    if s.len() > 0 {
        lemma_replay_entries_bytewise(s, s, entries, j, 0);
    } else if j < entries.len() && j >= 0 {
        let e = entries[j].1;
        lemma_replay_from_length(s, e.descriptors@, e.data_sectors@, 0, 0);
        lemma_replay_entries_length(
            replay_from(s, e.descriptors@, e.data_sectors@, 0, 0),
            entries,
            j + 1,
        );
    }
}

proof fn lemma_replay_from_length(
    s: Seq<u8>,
    descs: Seq<Descriptor>,
    sectors: Seq<DataSector>,
    i: int,
    k: int,
)
    ensures
        replay_from(s, descs, sectors, i, k).len() == s.len(),
    decreases descs.len() - i,
{
    if i < descs.len() && i >= 0 {
        match descs[i] {
            Descriptor::Zero(z) => {
                lemma_replay_from_length(
                    write(s, z.file_offset as int, zeros(z.zero_length as int)),
                    descs,
                    sectors,
                    i + 1,
                    k,
                );
            },
            Descriptor::Data(dd) => {
                lemma_replay_from_length(
                    write(s, dd.file_offset as int, data_write(dd, sectors[k])),
                    descs,
                    sectors,
                    i + 1,
                    k + 1,
                );
            },
        }
    }
}

} // verus!
