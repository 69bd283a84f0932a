use vstd::prelude::*;
use crate::common::{KEY_LENGTH, READ_RECORD_TAG, RECORD_SIZE, RECORD_VALUE_LENGTH,
    WRITE_RECORD_TAG};
use crate::interp::{RwRecord, rw_view};
use crate::util::sub_vec;

verus! {

/// Records whose keys and values have exactly the deployment's fixed
/// widths: the only shape the fixed-width wire format can carry.
pub open spec fn records_wf(s: Seq<RwRecord>) -> bool {
    forall|i: int| 0 <= i < s.len() ==> (#[trigger] s[i]).0.len() == KEY_LENGTH && s[i].1.len()
        == RECORD_VALUE_LENGTH
}

/// The bytes of one record: the type tag, then the key, then the value.
pub open spec fn record_bytes(tag: u8, r: RwRecord) -> Seq<u8> {
    seq![tag] + r.0 + r.1
}

/// The bytes of a record set, concatenated without separators.
pub open spec fn records_bytes(tag: u8, s: Seq<RwRecord>) -> Seq<u8>
    decreases s.len(),
{
    if s.len() == 0 {
        Seq::empty()
    } else {
        record_bytes(tag, s[0]) + records_bytes(tag, s.skip(1))
    }
}

/// The serialized continuation: every read-set record, then every
/// write-set record.
pub open spec fn pushback_bytes(reads: Seq<RwRecord>, writes: Seq<RwRecord>) -> Seq<u8> {
    records_bytes(READ_RECORD_TAG, reads) + records_bytes(WRITE_RECORD_TAG, writes)
}

/// Greedy parse of records carrying one tag off the head of the bytes:
/// the records parsed and the first position where parsing stopped.
pub open spec fn parse_records(b: Seq<u8>, tag: u8, from: int) -> (Seq<RwRecord>, int)
    decreases b.len() - from,
{
    if from < 0 || from + RECORD_SIZE > b.len() || b[from] != tag {
        (Seq::empty(), from)
    } else {
        let rec = (
            b.subrange(from + 1, from + 1 + KEY_LENGTH),
            b.subrange(from + 1 + KEY_LENGTH, from + RECORD_SIZE),
        );
        let rest = parse_records(b, tag, from + RECORD_SIZE);
        (seq![rec] + rest.0, rest.1)
    }
}

/// Parse of a whole continuation payload: read-set records, then
/// write-set records, and nothing after them.
pub open spec fn parse_pushback(b: Seq<u8>) -> Option<(Seq<RwRecord>, Seq<RwRecord>)> {
    let reads = parse_records(b, READ_RECORD_TAG, 0);
    let writes = parse_records(b, WRITE_RECORD_TAG, reads.1);
    if writes.1 == b.len() {
        Some((reads.0, writes.0))
    } else {
        None
    }
}

/// A serialized continuation is as long as its record count times the
/// record width.
pub proof fn lemma_records_bytes_len(tag: u8, s: Seq<RwRecord>)
    requires
        records_wf(s),
    ensures
        records_bytes(tag, s).len() == RECORD_SIZE * s.len(),
    decreases s.len(),
{
    if s.len() > 0 {
        assert(records_wf(s.skip(1))) by {
            assert(forall|i: int| 0 <= i < s.skip(1).len() ==> s.skip(1)[i] == s[i + 1]);
        }
        lemma_records_bytes_len(tag, s.skip(1));
        assert(record_bytes(tag, s[0]).len() == RECORD_SIZE);
        assert(records_bytes(tag, s).len() == RECORD_SIZE + records_bytes(tag, s.skip(1)).len());
        assert(RECORD_SIZE + RECORD_SIZE * (s.len() - 1) == RECORD_SIZE * s.len()) by (nonlinear_arith);
    }
}

/// The serialized record count equals the read-set size plus the
/// write-set size; the wire carries them in `RECORD_SIZE`-byte records.
pub proof fn lemma_pushback_length(reads: Seq<RwRecord>, writes: Seq<RwRecord>)
    requires
        records_wf(reads),
        records_wf(writes),
    ensures
        pushback_bytes(reads, writes).len() == RECORD_SIZE * (reads.len() + writes.len()),
{
    lemma_records_bytes_len(READ_RECORD_TAG, reads);
    lemma_records_bytes_len(WRITE_RECORD_TAG, writes);
    assert(RECORD_SIZE * reads.len() + RECORD_SIZE * writes.len() == RECORD_SIZE * (reads.len()
        + writes.len())) by (nonlinear_arith);
}

/// Greedy parsing undoes serialization of one record set: it consumes
/// exactly the set's bytes and stops at the trailing bytes, provided
/// those do not begin with the same tag.
proof fn lemma_parse_records(tag: u8, s: Seq<RwRecord>, rest: Seq<u8>)
    requires
        records_wf(s),
        rest.len() > 0 ==> rest[0] != tag,
    ensures
        parse_records(records_bytes(tag, s) + rest, tag, 0) == (
            s,
            records_bytes(tag, s).len() as int,
        ),
    decreases s.len(),
{
    let b = records_bytes(tag, s) + rest;
    if s.len() == 0 {
        assert(b =~= rest);
        if rest.len() == 0 {
            assert(parse_records(b, tag, 0) == (Seq::<RwRecord>::empty(), 0int));
        } else {
            assert(b[0] != tag);
        }
    } else {
        lemma_records_bytes_len(tag, s);
        assert(records_wf(s.skip(1))) by {
            assert(forall|i: int| 0 <= i < s.skip(1).len() ==> s.skip(1)[i] == s[i + 1]);
        }
        lemma_parse_records(tag, s.skip(1), rest);
        let head = record_bytes(tag, s[0]);
        let tail = records_bytes(tag, s.skip(1)) + rest;
        assert(head.len() == RECORD_SIZE);
        assert(b =~= head + tail);
        assert(b[0] == tag);
        assert(b.len() >= RECORD_SIZE);
        assert(b.subrange(1, 1 + KEY_LENGTH as int) =~= s[0].0);
        assert(b.subrange(1 + KEY_LENGTH as int, RECORD_SIZE as int) =~= s[0].1);
        // Parsing from the record boundary sees exactly the tail.
        assert(tail =~= b.skip(RECORD_SIZE as int));
        lemma_parse_records_shift(b, tag, RECORD_SIZE as int, tail);
        lemma_records_bytes_len(tag, s.skip(1));
        assert(parse_records(b, tag, RECORD_SIZE as int) == (
            s.skip(1),
            RECORD_SIZE + records_bytes(tag, s.skip(1)).len() as int,
        ));
        assert(seq![(s[0].0, s[0].1)] + s.skip(1) =~= s);
        assert((s[0].0, s[0].1) == s[0]);
    }
}

/// Parsing `b` from position `at` behaves as parsing the suffix from
/// its start, shifted by `at`.
proof fn lemma_parse_records_shift(b: Seq<u8>, tag: u8, at: int, suffix: Seq<u8>)
    requires
        0 <= at <= b.len(),
        suffix == b.skip(at),
    ensures
        parse_records(b, tag, at).0 == parse_records(suffix, tag, 0).0,
        parse_records(b, tag, at).1 == at + parse_records(suffix, tag, 0).1,
    decreases b.len() - at,
{
    if at + RECORD_SIZE > b.len() || b[at] != tag {
        if 0 + RECORD_SIZE <= suffix.len() {
            assert(suffix[0] == b[at]);
        }
    } else {
        assert(suffix[0] == b[at]);
        assert(suffix.len() == b.len() - at);
        assert(b.subrange(at + 1, at + 1 + KEY_LENGTH as int) =~= suffix.subrange(
            1,
            1 + KEY_LENGTH as int,
        ));
        assert(b.subrange(at + 1 + KEY_LENGTH as int, at + RECORD_SIZE as int) =~= suffix.subrange(
            1 + KEY_LENGTH as int,
            RECORD_SIZE as int,
        ));
        assert(suffix.skip(RECORD_SIZE as int) =~= b.skip(at + RECORD_SIZE));
        lemma_parse_records_shift(b, tag, at + RECORD_SIZE, suffix.skip(RECORD_SIZE as int));
        lemma_parse_records_shift(suffix, tag, RECORD_SIZE as int, suffix.skip(RECORD_SIZE as int));
    }
}

/// Encoding a continuation and parsing it back yields the read-set and
/// write-set unchanged: the round-trip law of the pushback wire format.
pub proof fn lemma_pushback_round_trip(reads: Seq<RwRecord>, writes: Seq<RwRecord>)
    requires
        records_wf(reads),
        records_wf(writes),
    ensures
        parse_pushback(pushback_bytes(reads, writes)) == Some((reads, writes)),
{
    let b = pushback_bytes(reads, writes);
    let wbytes = records_bytes(WRITE_RECORD_TAG, writes);
    if writes.len() > 0 {
        assert(wbytes[0] == WRITE_RECORD_TAG);
    }
    lemma_parse_records(READ_RECORD_TAG, reads, wbytes);
    lemma_records_bytes_len(READ_RECORD_TAG, reads);
    let mid = records_bytes(READ_RECORD_TAG, reads).len() as int;
    assert(b.skip(mid) =~= wbytes);
    lemma_parse_records(WRITE_RECORD_TAG, writes, Seq::empty());
    assert(wbytes + Seq::<u8>::empty() =~= wbytes);
    lemma_parse_records_shift(b, WRITE_RECORD_TAG, mid, wbytes);
    lemma_records_bytes_len(WRITE_RECORD_TAG, writes);
}

/// Checks that every record of a set has the fixed wire widths.
fn check_widths(s: &Vec<(Vec<u8>, Vec<u8>)>) -> (r: bool)
    ensures
        r <==> records_wf(rw_view(s@)),
{
    let n = s.len();
    let mut i: usize = 0;
    while i < n
        invariant
            n == s@.len(),
            0 <= i <= n,
            forall|j: int| 0 <= j < i ==> (#[trigger] rw_view(s@)[j]).0.len() == KEY_LENGTH
                && rw_view(s@)[j].1.len() == RECORD_VALUE_LENGTH,
        decreases n - i,
    {
        if s[i].0.len() != KEY_LENGTH || s[i].1.len() != RECORD_VALUE_LENGTH {
            proof {
                assert(rw_view(s@)[i as int].0.len() != KEY_LENGTH || rw_view(s@)[i as int].1.len()
                    != RECORD_VALUE_LENGTH);
            }
            return false;
        }
        i += 1;
    }
    true
}

/// Appends the serialized form of one record set to the output.
fn encode_records(tag: u8, s: &Vec<(Vec<u8>, Vec<u8>)>, from: usize, out: &mut Vec<u8>)
    requires
        from <= s@.len(),
        records_wf(rw_view(s@)),
    ensures
        final(out)@ == old(out)@ + records_bytes(tag, rw_view(s@).skip(from as int)),
    decreases s@.len() - from,
{
    if from == s.len() {
        proof {
            assert(out@ =~= out@ + records_bytes(tag, rw_view(s@).skip(from as int)));
        }
        return;
    }
    let ghost before = out@;
    out.push(tag);
    out.extend_from_slice(s[from].0.as_slice());
    out.extend_from_slice(s[from].1.as_slice());
    proof {
        assert(out@ =~= before + record_bytes(tag, rw_view(s@)[from as int]));
    }
    encode_records(tag, s, from + 1, out);
    proof {
        let v = rw_view(s@);
        assert(v.skip(from as int)[0] == v[from as int]);
        assert(v.skip(from as int).skip(1) =~= v.skip(from as int + 1));
        assert(final(out)@ =~= before + records_bytes(tag, v.skip(from as int)));
    }
}

/// Serializes a read/write-set into the continuation wire form: every
/// read-set record, then every write-set record. Fails exactly when a
/// record does not have the fixed wire widths.
pub fn encode_rwset(reads: &Vec<(Vec<u8>, Vec<u8>)>, writes: &Vec<(Vec<u8>, Vec<u8>)>) -> (r:
    Option<Vec<u8>>)
    ensures
        match r {
            Some(b) => {
                &&& records_wf(rw_view(reads@))
                &&& records_wf(rw_view(writes@))
                &&& b@ == pushback_bytes(rw_view(reads@), rw_view(writes@))
            },
            None => !(records_wf(rw_view(reads@)) && records_wf(rw_view(writes@))),
        },
{
    if !check_widths(reads) || !check_widths(writes) {
        return None;
    }
    let mut out: Vec<u8> = Vec::new();
    encode_records(READ_RECORD_TAG, reads, 0, &mut out);
    encode_records(WRITE_RECORD_TAG, writes, 0, &mut out);
    proof {
        assert(rw_view(reads@).skip(0) =~= rw_view(reads@));
        assert(rw_view(writes@).skip(0) =~= rw_view(writes@));
        assert(out@ =~= pushback_bytes(rw_view(reads@), rw_view(writes@)));
    }
    Some(out)
}

/// Parses records carrying one tag off the payload, appending them to
/// the output; returns the position where parsing stopped.
fn decode_records(b: &[u8], tag: u8, from: usize, out: &mut Vec<(Vec<u8>, Vec<u8>)>) -> (stop:
    usize)
    requires
        from <= b@.len(),
    ensures
        from <= stop <= b@.len(),
        rw_view(final(out)@) == rw_view(old(out)@) + parse_records(b@, tag, from as int).0,
        stop == parse_records(b@, tag, from as int).1,
    decreases b@.len() - from,
{
    if b.len() - from < RECORD_SIZE || b[from] != tag {
        proof {
            assert(rw_view(out@) =~= rw_view(out@) + parse_records(b@, tag, from as int).0);
        }
        return from;
    }
    let ghost before = out@;
    let key = sub_vec(b, from + 1, from + 1 + KEY_LENGTH);
    let val = sub_vec(b, from + 1 + KEY_LENGTH, from + RECORD_SIZE);
    out.push((key, val));
    proof {
        assert(rw_view(out@) =~= rw_view(before).push(
            (
                b@.subrange(from as int + 1, from as int + 1 + KEY_LENGTH as int),
                b@.subrange(from as int + 1 + KEY_LENGTH as int, from as int + RECORD_SIZE as int),
            ),
        ));
    }
    let stop = decode_records(b, tag, from + RECORD_SIZE, out);
    proof {
        let parsed = parse_records(b@, tag, from as int);
        let rest = parse_records(b@, tag, from as int + RECORD_SIZE as int);
        assert(parsed.0 =~= seq![
            (
                b@.subrange(from as int + 1, from as int + 1 + KEY_LENGTH as int),
                b@.subrange(from as int + 1 + KEY_LENGTH as int, from as int + RECORD_SIZE as int),
            ),
        ] + rest.0);
        assert(rw_view(final(out)@) =~= rw_view(before) + parsed.0);
    }
    stop
}

/// Deserializes a continuation payload back into its read-set and
/// write-set. Fails exactly when the payload is not a well-formed
/// concatenation of read-set records followed by write-set records.
pub fn decode_rwset(b: &[u8]) -> (r: Option<(Vec<(Vec<u8>, Vec<u8>)>, Vec<(Vec<u8>, Vec<u8>)>)>)
    ensures
        match r {
            Some(sets) => parse_pushback(b@) == Some(
                (rw_view(sets.0@), rw_view(sets.1@)),
            ),
            None => parse_pushback(b@) is None,
        },
{
    let mut reads: Vec<(Vec<u8>, Vec<u8>)> = Vec::new();
    let mut writes: Vec<(Vec<u8>, Vec<u8>)> = Vec::new();
    let mid = decode_records(b, READ_RECORD_TAG, 0, &mut reads);
    let stop = decode_records(b, WRITE_RECORD_TAG, mid, &mut writes);
    proof {
        assert(rw_view(reads@) =~= parse_records(b@, READ_RECORD_TAG, 0).0);
        assert(rw_view(writes@) =~= parse_records(
            b@,
            WRITE_RECORD_TAG,
            parse_records(b@, READ_RECORD_TAG, 0).1,
        ).0);
    }
    if stop == b.len() {
        Some((reads, writes))
    } else {
        None
    }
}

} // verus!
