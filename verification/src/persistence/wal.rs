//! The write-ahead log: an append-only stream of records, each a
//! 16-byte header, the payload, and a CRC32 over both. Records are
//! self-delimiting; a partially written tail is a permitted end state.

use vstd::prelude::*;
use vstd::bytes::{spec_u32_from_le_bytes, spec_u32_to_le_bytes, spec_u64_from_le_bytes, u32_to_le_bytes};
use crate::persistence::checksum::{crc32, crc32_of};
use crate::persistence::entry::{spec_entry_bytes, WalEntry};

verus! {

/// Bytes of a record's fixed header.
pub const WAL_HEADER_SIZE: usize = 16;

/// Bytes of a record's trailing checksum.
pub const CRC_SIZE: usize = 4;

/// Largest accepted payload, guarding replay against allocator
/// exhaustion.
pub const MAX_PAYLOAD_SIZE: usize = 16777216;

/// Errors of log reading and writing.
#[derive(Clone, Debug, PartialEq, Eq, Structural)]
pub enum WalError {
    /// The stream ends inside a record: a clean cut at a record
    /// boundary is not an error, this is a cut inside one.
    Truncated {
        /// Offset of the incomplete record.
        offset: usize,
    },
    /// A record's checksum does not match its bytes.
    ChecksumMismatch {
        /// Checksum stored.
        expected: u32,
        /// Checksum calculated.
        actual: u32,
    },
    /// A record announces a payload beyond the accepted maximum.
    PayloadTooLarge {
        /// Length announced.
        len: u32,
        /// Largest accepted length.
        max: u32,
    },
}

/// The wire bytes of one record: header, payload, CRC32 of both.
pub open spec fn spec_record_bytes(e: WalEntry, payload: Seq<u8>) -> Seq<u8> {
    spec_entry_bytes(e) + payload + spec_u32_to_le_bytes(
        crc32_of(spec_entry_bytes(e) + payload),
    )
}

/// One logical record: sequence number, type, payload.
pub struct WalRecord {
    /// Sequence number.
    pub sequence: u64,
    /// Entry type.
    pub entry_type: u8,
    /// Payload bytes.
    pub payload: Vec<u8>,
}

/// The wire bytes of a list of records, in order.
pub open spec fn spec_wal_bytes(records: Seq<(u64, u8, Seq<u8>)>) -> Seq<u8>
    decreases records.len(),
{
    if records.len() == 0 {
        Seq::empty()
    } else {
        spec_record_bytes(
            WalEntry {
                sequence: records[0].0,
                entry_type: records[0].1,
                _pad: [0u8, 0u8, 0u8],
                payload_len: records[0].2.len() as u32,
            },
            records[0].2,
        ) + spec_wal_bytes(records.subrange(1, records.len() as int))
    }
}

/// The payload length field read at `pos`.
pub open spec fn spec_plen_at(bytes: Seq<u8>, pos: int) -> int {
    spec_u32_from_le_bytes(bytes.subrange(pos + 12, pos + 16)) as int
}

/// Whether the stream ends inside the record at `pos`: too short for
/// the header, or too short for the announced payload and checksum.
pub open spec fn spec_truncated_at(bytes: Seq<u8>, pos: int) -> bool {
    pos < bytes.len() && (pos + 16 > bytes.len() || (spec_plen_at(bytes, pos)
        <= MAX_PAYLOAD_SIZE && pos + 20 + spec_plen_at(bytes, pos) > bytes.len()))
}

/// Whether a whole, well-checksummed record within the size cap
/// stands at `pos`.
pub open spec fn spec_record_ok_at(bytes: Seq<u8>, pos: int) -> bool {
    &&& pos + 16 <= bytes.len()
    &&& spec_plen_at(bytes, pos) <= MAX_PAYLOAD_SIZE
    &&& pos + 20 + spec_plen_at(bytes, pos) <= bytes.len()
    &&& spec_u32_from_le_bytes(
        bytes.subrange(pos + 16 + spec_plen_at(bytes, pos), pos + 20 + spec_plen_at(bytes, pos)),
    ) == crc32_of(bytes.subrange(pos, pos + 16 + spec_plen_at(bytes, pos)))
}

/// The record parsed at `pos`, as (sequence, type, payload).
pub open spec fn spec_record_at(bytes: Seq<u8>, pos: int) -> (u64, u8, Seq<u8>) {
    (
        spec_u64_from_le_bytes(bytes.subrange(pos, pos + 8)),
        bytes[pos + 8],
        bytes.subrange(pos + 16, pos + 16 + spec_plen_at(bytes, pos)),
    )
}

/// In-memory appender: frames records and accumulates the log bytes;
/// the caller hands them to its backend.
pub struct WalAppender {
    buffer: Vec<u8>,
    next_sequence: u64,
    records: Ghost<Seq<(u64, u8, Seq<u8>)>>,
    start_sequence: Ghost<u64>,
}

impl WalAppender {
    /// The records appended so far, as (sequence, type, payload).
    pub closed spec fn records_spec(&self) -> Seq<(u64, u8, Seq<u8>)> {
        self.records@
    }

    /// The accumulated log bytes.
    pub closed spec fn log_bytes_spec(&self) -> Seq<u8> {
        self.buffer@
    }

    /// The sequence number of the next record.
    pub closed spec fn next_sequence_spec(&self) -> u64 {
        self.next_sequence as u64
    }

    /// The appender's bytes are exactly the frames of its records,
    /// whose sequence numbers are gapless from the starting one.
    pub closed spec fn wf(&self) -> bool {
        &&& self.buffer@ == spec_wal_bytes(self.records@)
        &&& self.next_sequence == self.start_sequence@ + self.records@.len()
        &&& forall|i: int|
            0 <= i < self.records@.len() ==> (#[trigger] self.records@[i]).0 == self.start_sequence@
                + i && self.records@[i].2.len() <= MAX_PAYLOAD_SIZE
    }

    /// Creates an appender whose first record gets `start_sequence`.
    pub fn new(start_sequence: u64) -> (r: Self)
        ensures
            r.wf(),
            r.records_spec() == Seq::<(u64, u8, Seq<u8>)>::empty(),
            r.log_bytes_spec() == Seq::<u8>::empty(),
            r.next_sequence_spec() == start_sequence,
    {
        WalAppender {
            buffer: Vec::new(),
            next_sequence: start_sequence,
            records: Ghost(Seq::empty()),
            start_sequence: Ghost(start_sequence),
        }
    }

    /// Appends one record and returns its sequence number. A payload
    /// over the cap is rejected, exactly at the boundary: a payload of
    /// the cap's length is accepted, one byte more is not. The bound
    /// on the sequence number is a machine limit.
    pub fn append(&mut self, entry_type: u8, payload: &[u8]) -> (r: Result<u64, WalError>)
        requires
            old(self).wf(),
            old(self).next_sequence_spec() < u64::MAX,
        ensures
            final(self).wf(),
            match r {
                Result::Ok(seq) => {
                    &&& payload@.len() <= MAX_PAYLOAD_SIZE
                    &&& seq == old(self).next_sequence_spec()
                    &&& final(self).next_sequence_spec() == old(self).next_sequence_spec() + 1
                    &&& final(self).records_spec() == old(self).records_spec().push(
                        (seq, entry_type, payload@),
                    )
                    &&& final(self).log_bytes_spec() == old(self).log_bytes_spec()
                        + spec_record_bytes(
                        WalEntry {
                            sequence: seq,
                            entry_type,
                            _pad: [0u8, 0u8, 0u8],
                            payload_len: payload@.len() as u32,
                        },
                        payload@,
                    )
                },
                Result::Err(e) => {
                    &&& payload@.len() > MAX_PAYLOAD_SIZE
                    &&& e == (WalError::PayloadTooLarge {
                        len: payload@.len() as u32,
                        max: MAX_PAYLOAD_SIZE as u32,
                    })
                    &&& *final(self) == *old(self)
                },
            },
    {
        if payload.len() > MAX_PAYLOAD_SIZE {
            return Err(
                WalError::PayloadTooLarge {
                    len: payload.len() as u32,
                    max: MAX_PAYLOAD_SIZE as u32,
                },
            );
        }
        let seq = self.next_sequence;
        let entry = WalEntry::new(seq, entry_type, payload.len() as u32);
        let mut frame = entry.as_bytes();
        let mut k: usize = 0;
        while k < payload.len()
            invariant
                0 <= k <= payload@.len(),
                frame@ == spec_entry_bytes(entry) + payload@.subrange(0, k as int),
            decreases payload@.len() - k,
        {
            frame.push(payload[k]);
            proof {
                assert(frame@ =~= spec_entry_bytes(entry) + payload@.subrange(0, k + 1));
            }
            k = k + 1;
        }
        proof {
            assert(payload@.subrange(0, payload@.len() as int) =~= payload@);
        }
        let checksum = crc32(frame.as_slice());
        let mut crc_bytes = u32_to_le_bytes(checksum);
        frame.append(&mut crc_bytes);
        let ghost frame_view = frame@;
        let mut rest = frame;
        self.buffer.append(&mut rest);
        self.next_sequence = self.next_sequence + 1;
        self.records = Ghost(self.records@.push((seq, entry_type, payload@)));
        proof {
            let e = WalEntry {
                sequence: seq,
                entry_type,
                _pad: [0u8, 0u8, 0u8],
                payload_len: payload@.len() as u32,
            };
            assert(entry == e);
            assert(frame_view =~= spec_record_bytes(e, payload@));
            lemma_wal_bytes_push(old(self).records@, (seq, entry_type, payload@));
            assert(self.buffer@ =~= spec_wal_bytes(self.records@));
        }
        Ok(seq)
    }

    /// The accumulated log bytes.
    pub fn log_bytes(&self) -> (r: &Vec<u8>)
        ensures
            r@ == self.log_bytes_spec(),
    {
        &self.buffer
    }

    /// The sequence number the next record will get.
    pub fn next_sequence(&self) -> (r: u64)
        ensures
            r == self.next_sequence_spec(),
    {
        self.next_sequence
    }
}

/// The frames of records-plus-one are the frames of the records
/// followed by the new record's frame.
pub proof fn lemma_wal_bytes_push(records: Seq<(u64, u8, Seq<u8>)>, rec: (u64, u8, Seq<u8>))
    ensures
        spec_wal_bytes(records.push(rec)) == spec_wal_bytes(records) + spec_record_bytes(
            WalEntry {
                sequence: rec.0,
                entry_type: rec.1,
                _pad: [0u8, 0u8, 0u8],
                payload_len: rec.2.len() as u32,
            },
            rec.2,
        ),
    decreases records.len(),
{
    let all = records.push(rec);
    let f = spec_record_bytes(
        WalEntry {
            sequence: rec.0,
            entry_type: rec.1,
            _pad: [0u8, 0u8, 0u8],
            payload_len: rec.2.len() as u32,
        },
        rec.2,
    );
    if records.len() == 0 {
        assert(all.subrange(1, all.len() as int) =~= Seq::<(u64, u8, Seq<u8>)>::empty());
        assert(all[0] == rec);
        assert(spec_wal_bytes(all) == f + spec_wal_bytes(all.subrange(1, all.len() as int)));
        assert(spec_wal_bytes(Seq::<(u64, u8, Seq<u8>)>::empty()) == Seq::<u8>::empty());
        assert(records =~= Seq::<(u64, u8, Seq<u8>)>::empty());
        assert(f + Seq::<u8>::empty() =~= f);
        assert(Seq::<u8>::empty() + f =~= f);
    } else {
        let tailrecs = records.subrange(1, records.len() as int);
        let rb0 = spec_record_bytes(
            WalEntry {
                sequence: records[0].0,
                entry_type: records[0].1,
                _pad: [0u8, 0u8, 0u8],
                payload_len: records[0].2.len() as u32,
            },
            records[0].2,
        );
        assert(all.subrange(1, all.len() as int) =~= tailrecs.push(rec));
        lemma_wal_bytes_push(tailrecs, rec);
        assert(all[0] == records[0]);
        assert(spec_wal_bytes(all) == rb0 + (spec_wal_bytes(tailrecs) + f));
        assert(rb0 + (spec_wal_bytes(tailrecs) + f) =~= (rb0 + spec_wal_bytes(tailrecs)) + f);
        assert(spec_wal_bytes(records) == rb0 + spec_wal_bytes(tailrecs));
    }
}

} // verus!

verus! {

/// A slice of a concatenation that stays in the left part is a slice
/// of the left part.
proof fn lemma_concat_subrange_left(a: Seq<u8>, b: Seq<u8>, i: int, j: int)
    requires
        0 <= i <= j <= a.len(),
    ensures
        (a + b).subrange(i, j) == a.subrange(i, j),
{
    assert((a + b).subrange(i, j) =~= a.subrange(i, j));
}

/// A slice of a concatenation that stays in the right part is a slice
/// of the right part, shifted.
proof fn lemma_concat_subrange_right(a: Seq<u8>, b: Seq<u8>, i: int, j: int)
    requires
        0 <= i <= j <= b.len(),
    ensures
        (a + b).subrange(a.len() + i, a.len() + j) == b.subrange(i, j),
{
    assert((a + b).subrange(a.len() + i, a.len() + j) =~= b.subrange(i, j));
}

/// Position of the record with index `k` inside the log bytes.
pub open spec fn spec_wal_offset(records: Seq<(u64, u8, Seq<u8>)>, k: int) -> int {
    spec_wal_bytes(records.subrange(0, k)).len() as int
}

/// The byte layout of one frame, decomposed.
proof fn lemma_record_frame(e: WalEntry, p: Seq<u8>)
    requires
        e.payload_len == p.len(),
    ensures
        spec_record_bytes(e, p).len() == 20 + p.len() as int,
        spec_record_bytes(e, p).subrange(0, 16) == spec_entry_bytes(e),
        spec_record_bytes(e, p).subrange(12, 16) == spec_u32_to_le_bytes(e.payload_len),
        spec_record_bytes(e, p).subrange(0, 8) == vstd::bytes::spec_u64_to_le_bytes(e.sequence),
        spec_record_bytes(e, p)[8] == e.entry_type,
        spec_record_bytes(e, p).subrange(16, 16 + p.len() as int) == p,
        spec_record_bytes(e, p).subrange(0, 16 + p.len() as int) == spec_entry_bytes(e) + p,
        spec_record_bytes(e, p).subrange(16 + p.len() as int, 20 + p.len() as int) == spec_u32_to_le_bytes(
            crc32_of(spec_entry_bytes(e) + p),
        ),
{
    vstd::bytes::lemma_auto_spec_u64_to_from_le_bytes();
    vstd::bytes::lemma_auto_spec_u32_to_from_le_bytes();
    let f = spec_record_bytes(e, p);
    assert(f.subrange(0, 16) =~= spec_entry_bytes(e));
    assert(f.subrange(12, 16) =~= spec_u32_to_le_bytes(e.payload_len)) by {
        assert(spec_entry_bytes(e).subrange(12, 16) =~= spec_u32_to_le_bytes(e.payload_len));
        assert forall|t: int| 0 <= t < 4 implies f.subrange(12, 16)[t] == spec_u32_to_le_bytes(
            e.payload_len,
        )[t] by {
            assert(f[12 + t] == spec_entry_bytes(e)[12 + t]);
        }
    }
    assert(f.subrange(0, 8) =~= vstd::bytes::spec_u64_to_le_bytes(e.sequence)) by {
        assert forall|t: int|
            0 <= t < 8 implies f.subrange(0, 8)[t] == vstd::bytes::spec_u64_to_le_bytes(
            e.sequence,
        )[t] by {
            assert(f[t] == spec_entry_bytes(e)[t]);
        }
    }
    assert(f[8] == spec_entry_bytes(e)[8]);
    assert(f.subrange(16, 16 + p.len() as int) =~= p);
    assert(f.subrange(0, 16 + p.len() as int) =~= spec_entry_bytes(e) + p);
    assert(f.subrange(16 + p.len() as int, 20 + p.len() as int) =~= spec_u32_to_le_bytes(
        crc32_of(spec_entry_bytes(e) + p),
    ));
}

/// Replay, one step: inside the log bytes of `records` (with anything
/// appended after them), a whole, well-checksummed record stands at
/// the position of index `k`, parses to `records[k]`, and ends where
/// index `k + 1` begins. With the end position equal to the total
/// length, writing N records and iterating yields exactly the N
/// records, in order.
pub proof fn lemma_wal_replay_step(records: Seq<(u64, u8, Seq<u8>)>, rest: Seq<u8>, k: int)
    requires
        0 <= k < records.len(),
        forall|i: int|
            0 <= i < records.len() ==> (#[trigger] records[i]).2.len() <= MAX_PAYLOAD_SIZE,
    ensures
        ({
            let bytes = spec_wal_bytes(records) + rest;
            let pos = spec_wal_offset(records, k);
            &&& spec_record_ok_at(bytes, pos)
            &&& spec_plen_at(bytes, pos) == records[k].2.len()
            &&& spec_record_at(bytes, pos) == records[k]
            &&& pos + 20 + spec_plen_at(bytes, pos) == spec_wal_offset(records, k + 1)
            &&& spec_wal_offset(records, k + 1) <= spec_wal_bytes(records).len()
        }),
    decreases k,
{
    vstd::bytes::lemma_auto_spec_u64_to_from_le_bytes();
    vstd::bytes::lemma_auto_spec_u32_to_from_le_bytes();
    let bytes = spec_wal_bytes(records) + rest;
    let e0 = WalEntry {
        sequence: records[0].0,
        entry_type: records[0].1,
        _pad: [0u8, 0u8, 0u8],
        payload_len: records[0].2.len() as u32,
    };
    let f0 = spec_record_bytes(e0, records[0].2);
    let tail = records.subrange(1, records.len() as int);
    assert(spec_wal_bytes(records) == f0 + spec_wal_bytes(tail));
    lemma_record_frame(e0, records[0].2);
    if k == 0 {
        assert(records.subrange(0, 0) =~= Seq::<(u64, u8, Seq<u8>)>::empty());
        let pos = spec_wal_offset(records, 0);
        assert(pos == 0);
        let l0 = 20 + records[0].2.len();
        assert(bytes =~= f0 + (spec_wal_bytes(tail) + rest));
        let after = spec_wal_bytes(tail) + rest;
        assert(bytes == f0 + after);
        lemma_concat_subrange_left(f0, after, 12, 16);
        assert(spec_plen_at(bytes, 0) == records[0].2.len() as int);
        lemma_concat_subrange_left(f0, after, 0, 16 + records[0].2.len() as int);
        lemma_concat_subrange_left(f0, after, 16 + records[0].2.len() as int, 20 + records[0].2.len() as int);
        assert(spec_record_ok_at(bytes, 0));
        lemma_concat_subrange_left(f0, after, 0, 8);
        lemma_concat_subrange_left(f0, after, 16, 16 + records[0].2.len() as int);
        assert(bytes[8] == f0[8]);
        assert(spec_record_at(bytes, 0) == records[0]);
        assert(records.subrange(0, 1) =~= seq![records[0]]);
        assert(spec_wal_bytes(seq![records[0]]) =~= f0) by {
            assert(seq![records[0]].subrange(1, 1) =~= Seq::<(u64, u8, Seq<u8>)>::empty());
            assert(f0 + Seq::<u8>::empty() =~= f0);
        }
        assert(spec_wal_offset(records, 1) == f0.len());
    } else {
        assert(forall|i: int|
            0 <= i < tail.len() ==> (#[trigger] tail[i]).2.len() <= MAX_PAYLOAD_SIZE) by {
            assert(forall|i: int| 0 <= i < tail.len() ==> tail[i] == records[i + 1]);
        }
        lemma_wal_replay_step(tail, rest, k - 1);
        let bytes2 = spec_wal_bytes(tail) + rest;
        let pos2 = spec_wal_offset(tail, k - 1);
        assert(bytes =~= f0 + bytes2);
        // offsets shift by the first frame
        assert(spec_wal_offset(records, k) == f0.len() + pos2) by {
            lemma_wal_offset_shift(records, k);
        }
        assert(spec_wal_offset(records, k + 1) == f0.len() + spec_wal_offset(tail, k)) by {
            lemma_wal_offset_shift(records, k + 1);
        }
        let pos = f0.len() + pos2;
        lemma_wal_reading_shift(f0, bytes2, pos2);
        assert(spec_plen_at(bytes, pos) == spec_plen_at(bytes2, pos2));
        assert(spec_record_ok_at(bytes, pos));
        assert(spec_record_at(bytes, pos) == spec_record_at(bytes2, pos2));
        assert(spec_record_at(bytes2, pos2) == tail[k - 1]);
        assert(tail[k - 1] == records[k]);
    }
}

/// Offsets inside a log shift by the first frame's length when the
/// first record is peeled off.
proof fn lemma_wal_offset_shift(records: Seq<(u64, u8, Seq<u8>)>, k: int)
    requires
        1 <= k <= records.len(),
    ensures
        ({
            let e0 = WalEntry {
                sequence: records[0].0,
                entry_type: records[0].1,
                _pad: [0u8, 0u8, 0u8],
                payload_len: records[0].2.len() as u32,
            };
            spec_wal_offset(records, k) == spec_record_bytes(e0, records[0].2).len()
                + spec_wal_offset(records.subrange(1, records.len() as int), k - 1)
        }),
{
    let e0 = WalEntry {
        sequence: records[0].0,
        entry_type: records[0].1,
        _pad: [0u8, 0u8, 0u8],
        payload_len: records[0].2.len() as u32,
    };
    let f0 = spec_record_bytes(e0, records[0].2);
    let pre = records.subrange(0, k);
    let tail = records.subrange(1, records.len() as int);
    assert(pre.subrange(1, pre.len() as int) =~= tail.subrange(0, k - 1));
    assert(pre[0] == records[0]);
    assert(spec_wal_bytes(pre) == f0 + spec_wal_bytes(tail.subrange(0, k - 1)));
}

/// The record-reading predicates see only the bytes after a fixed
/// prefix: shifting the position by the prefix's length changes
/// nothing.
proof fn lemma_wal_reading_shift(prefix: Seq<u8>, bytes2: Seq<u8>, pos2: int)
    requires
        0 <= pos2 <= bytes2.len(),
    ensures
        ({
            let bytes = prefix + bytes2;
            let pos = prefix.len() + pos2;
            &&& (pos + 16 <= bytes.len() ==> spec_plen_at(bytes, pos) == spec_plen_at(
                bytes2,
                pos2,
            ))
            &&& (spec_record_ok_at(bytes2, pos2) ==> spec_record_ok_at(bytes, pos)
                && spec_record_at(bytes, pos) == spec_record_at(bytes2, pos2))
            &&& (spec_truncated_at(bytes2, pos2) ==> spec_truncated_at(bytes, pos))
        }),
{
    let bytes = prefix + bytes2;
    let pos = prefix.len() + pos2;
    if pos + 16 <= bytes.len() {
        lemma_concat_subrange_right(prefix, bytes2, pos2 + 12, pos2 + 16);
    }
    if spec_record_ok_at(bytes2, pos2) {
        let plen = spec_plen_at(bytes2, pos2);
        lemma_concat_subrange_right(prefix, bytes2, pos2 + 12, pos2 + 16);
        lemma_concat_subrange_right(prefix, bytes2, pos2, pos2 + 16 + plen);
        lemma_concat_subrange_right(prefix, bytes2, pos2 + 16 + plen, pos2 + 20 + plen);
        lemma_concat_subrange_right(prefix, bytes2, pos2, pos2 + 8);
        lemma_concat_subrange_right(prefix, bytes2, pos2 + 16, pos2 + 16 + plen);
        assert(bytes[pos + 8] == bytes2[pos2 + 8]);
    }
    if spec_truncated_at(bytes2, pos2) {
        if pos2 + 16 <= bytes2.len() {
            lemma_concat_subrange_right(prefix, bytes2, pos2 + 12, pos2 + 16);
        }
    }
}

/// After the last record the log ends: the offset of index N is the
/// length of the log bytes, where a reader stops cleanly.
pub proof fn lemma_wal_replay_end(records: Seq<(u64, u8, Seq<u8>)>)
    ensures
        spec_wal_offset(records, records.len() as int) == spec_wal_bytes(records).len(),
{
    assert(records.subrange(0, records.len() as int) =~= records);
}

/// A torn tail is detected as truncation: cutting the log inside the
/// frame of one more record leaves the written records readable and
/// the reader reporting `Truncated` at the cut record, never a
/// checksum error. Cutting exactly at the record boundary leaves a
/// clean stop instead.
pub proof fn lemma_wal_torn_tail(
    records: Seq<(u64, u8, Seq<u8>)>,
    e: WalEntry,
    p: Seq<u8>,
    cut: int,
)
    requires
        forall|i: int|
            0 <= i < records.len() ==> (#[trigger] records[i]).2.len() <= MAX_PAYLOAD_SIZE,
        e.payload_len == p.len(),
        p.len() <= MAX_PAYLOAD_SIZE,
        0 < cut < spec_record_bytes(e, p).len(),
    ensures
        ({
            let bytes = spec_wal_bytes(records) + spec_record_bytes(e, p).subrange(0, cut);
            let pos = spec_wal_offset(records, records.len() as int);
            spec_truncated_at(bytes, pos)
        }),
{
    vstd::bytes::lemma_auto_spec_u32_to_from_le_bytes();
    lemma_wal_replay_end(records);
    lemma_record_frame(e, p);
    let partial = spec_record_bytes(e, p).subrange(0, cut);
    let bytes = spec_wal_bytes(records) + partial;
    let pos = spec_wal_bytes(records).len() as int;
    assert(pos < bytes.len());
    if cut < 16 {
        assert(pos + 16 > bytes.len());
    } else {
        lemma_concat_subrange_right(spec_wal_bytes(records), partial, 12, 16);
        assert(partial.subrange(12, 16) =~= spec_record_bytes(e, p).subrange(12, 16));
        assert(spec_plen_at(bytes, pos) == p.len());
        assert(pos + 20 + spec_plen_at(bytes, pos) > bytes.len());
    }
}

} // verus!

verus! {

/// Restartable reader over log bytes: yields records in order, then a
/// clean end at the final record boundary, a `Truncated` error inside
/// a torn record, or a `ChecksumMismatch` on a corrupted one.
pub struct WalIterator {
    data: Vec<u8>,
    pos: usize,
}

impl WalIterator {
    /// The log bytes being read.
    pub closed spec fn data_spec(&self) -> Seq<u8> {
        self.data@
    }

    /// The current reading position, always at or before the end.
    pub closed spec fn pos_spec(&self) -> int {
        self.pos as int
    }

    /// The position never passes the end of the bytes.
    pub closed spec fn wf(&self) -> bool {
        self.pos <= self.data@.len()
    }

    /// Creates a reader at the start of the given log bytes.
    pub fn new(data: Vec<u8>) -> (r: Self)
        ensures
            r.wf(),
            r.data_spec() == data@,
            r.pos_spec() == 0,
    {
        WalIterator { data, pos: 0 }
    }

    /// Reads the next record. `None` is the clean end of the log;
    /// `Truncated` means the bytes end inside the record here;
    /// `PayloadTooLarge` guards the size cap; `ChecksumMismatch` means
    /// the record's stored checksum disagrees with its bytes. On an
    /// error the position does not move, so the error repeats.
    pub fn next_record(&mut self) -> (r: Option<Result<(WalEntry, Vec<u8>), WalError>>)
        requires
            old(self).wf(),
        ensures
            final(self).wf(),
            final(self).data_spec() == old(self).data_spec(),
            ({
                let bytes = old(self).data_spec();
                let pos = old(self).pos_spec();
                match r {
                    Option::None => pos == bytes.len() && final(self).pos_spec() == pos,
                    Option::Some(step) => match step {
                        Result::Ok((e, p)) => {
                            &&& spec_record_ok_at(bytes, pos)
                            &&& (e.sequence, e.entry_type, p@) == spec_record_at(bytes, pos)
                            &&& e.payload_len == spec_plen_at(bytes, pos)
                            &&& final(self).pos_spec() == pos + 20 + spec_plen_at(bytes, pos)
                        },
                        Result::Err(err) => final(self).pos_spec() == pos && match err {
                            WalError::Truncated { offset } => spec_truncated_at(bytes, pos)
                                && offset == pos,
                            WalError::PayloadTooLarge { len, max } => pos + 16 <= bytes.len()
                                && spec_plen_at(bytes, pos) > MAX_PAYLOAD_SIZE && len
                                == spec_plen_at(bytes, pos) && max == MAX_PAYLOAD_SIZE as u32,
                            WalError::ChecksumMismatch { expected, actual } => {
                                let plen = spec_plen_at(bytes, pos);
                                &&& pos + 16 <= bytes.len()
                                &&& plen <= MAX_PAYLOAD_SIZE
                                &&& pos + 20 + plen <= bytes.len()
                                &&& expected == vstd::bytes::spec_u32_from_le_bytes(
                                    bytes.subrange(pos + 16 + plen, pos + 20 + plen),
                                )
                                &&& actual == crc32_of(bytes.subrange(pos, pos + 16 + plen))
                                &&& expected != actual
                            },
                        },
                    },
                }
            }),
    {
        proof {
            vstd::bytes::lemma_auto_spec_u64_to_from_le_bytes();
            vstd::bytes::lemma_auto_spec_u32_to_from_le_bytes();
        }
        let total = self.data.len();
        let pos = self.pos;
        if pos == total {
            return None;
        }
        if total - pos < 16 {
            return Some(Err(WalError::Truncated { offset: pos }));
        }
        let seq = vstd::bytes::u64_from_le_bytes(
            vstd::slice::slice_subrange(self.data.as_slice(), pos, pos + 8),
        );
        let etype = self.data[pos + 8];
        let plen32 = vstd::bytes::u32_from_le_bytes(
            vstd::slice::slice_subrange(self.data.as_slice(), pos + 12, pos + 16),
        );
        let plen = plen32 as usize;
        if plen > MAX_PAYLOAD_SIZE {
            return Some(
                Err(WalError::PayloadTooLarge { len: plen32, max: MAX_PAYLOAD_SIZE as u32 }),
            );
        }
        if total - pos - 16 < 4 || total - pos - 16 - 4 < plen {
            return Some(Err(WalError::Truncated { offset: pos }));
        }
        let frame_end = pos + 16 + plen;
        let computed = crc32(vstd::slice::slice_subrange(self.data.as_slice(), pos, frame_end));
        let stored = vstd::bytes::u32_from_le_bytes(
            vstd::slice::slice_subrange(self.data.as_slice(), frame_end, frame_end + 4),
        );
        if stored != computed {
            return Some(Err(WalError::ChecksumMismatch { expected: stored, actual: computed }));
        }
        let payload = vstd::slice::slice_to_vec(
            vstd::slice::slice_subrange(self.data.as_slice(), pos + 16, frame_end),
        );
        let entry = WalEntry::new(seq, etype, plen32);
        self.pos = frame_end + 4;
        Some(Ok((entry, payload)))
    }
}

} // verus!
