use vstd::bytes::{spec_u16_from_le_bytes, spec_u64_from_le_bytes, u16_from_le_bytes, u64_from_le_bytes};
use vstd::prelude::*;
use vstd::slice::slice_subrange;

use crate::counters::Counters;
use crate::registry::{sightings, Observation, Sighting};

verus! {

/// Type tag of an extended interface-info message in a routing-socket dump.
pub const RTM_IFINFO2: u8 = 0x12;

/// Length of an extended interface-info message: a 32-byte header followed
/// by 128 bytes of interface data.
pub const IFINFO2_LEN: usize = 160;

pub const TYPE_AT: usize = 3;

pub const INDEX_AT: usize = 12;

pub const IPACKETS_AT: usize = 56;

pub const IERRORS_AT: usize = 64;

pub const OPACKETS_AT: usize = 72;

pub const OERRORS_AT: usize = 80;

pub const IBYTES_AT: usize = 96;

pub const OBYTES_AT: usize = 104;

/// An extended interface-info message: the interface's numeric index and its
/// counters.
#[derive(Clone, Copy, Debug, PartialEq, Eq, Structural)]
pub struct RouteRecord {
    pub index: u16,
    pub reading: Counters,
}

pub open spec fn u16_at(b: Seq<u8>, off: int) -> u16 {
    spec_u16_from_le_bytes(b.subrange(off, off + 2))
}

pub open spec fn u64_at(b: Seq<u8>, off: int) -> u64 {
    spec_u64_from_le_bytes(b.subrange(off, off + 8))
}

/// The record of the message that starts at `off`.
pub open spec fn record_at(b: Seq<u8>, off: int) -> RouteRecord {
    RouteRecord {
        index: u16_at(b, off + INDEX_AT),
        reading: Counters {
            bytes_in: u64_at(b, off + IBYTES_AT),
            bytes_out: u64_at(b, off + OBYTES_AT),
            packets_in: u64_at(b, off + IPACKETS_AT),
            packets_out: u64_at(b, off + OPACKETS_AT),
            errors_in: u64_at(b, off + IERRORS_AT),
            errors_out: u64_at(b, off + OERRORS_AT),
        },
    }
}

/// The records of the messages from `off` on. Each message starts with its
/// length; a length of zero, or one that runs past the buffer, ends the
/// stream, and so does a buffer too short to hold a length. Messages of
/// another type, or too short to hold the counters, are passed over.
pub open spec fn records_from(b: Seq<u8>, off: int) -> Seq<RouteRecord>
    decreases b.len() - off,
{
    if off < 0 || off + 2 > b.len() {
        Seq::empty()
    } else {
        let len = u16_at(b, off) as int;
        if len == 0 || off + len > b.len() {
            Seq::empty()
        } else if len >= IFINFO2_LEN && b[off + TYPE_AT] == RTM_IFINFO2 {
            seq![record_at(b, off)] + records_from(b, off + len)
        } else {
            records_from(b, off + len)
        }
    }
}

fn u64_in(buf: &[u8], off: usize) -> (r: u64)
    requires
        off + 8 <= buf@.len(),
    ensures
        r == u64_at(buf@, off as int),
{
    let _n = buf.len();
    u64_from_le_bytes(slice_subrange(buf, off, off + 8))
}

fn record_in(buf: &[u8], off: usize) -> (r: RouteRecord)
    requires
        off + IFINFO2_LEN <= buf@.len(),
    ensures
        r == record_at(buf@, off as int),
{
    let _n = buf.len();
    RouteRecord {
        index: u16_from_le_bytes(slice_subrange(buf, off + INDEX_AT, off + INDEX_AT + 2)),
        reading: Counters {
            bytes_in: u64_in(buf, off + IBYTES_AT),
            bytes_out: u64_in(buf, off + OBYTES_AT),
            packets_in: u64_in(buf, off + IPACKETS_AT),
            packets_out: u64_in(buf, off + OPACKETS_AT),
            errors_in: u64_in(buf, off + IERRORS_AT),
            errors_out: u64_in(buf, off + OERRORS_AT),
        },
    }
}

/// Walks a routing-socket interface dump and returns its extended
/// interface-info records, in order. Never reads past the buffer.
pub fn parse_records(buf: &[u8]) -> (r: Vec<RouteRecord>)
    ensures
        r@ == records_from(buf@, 0),
{
    let mut out: Vec<RouteRecord> = Vec::new();
    let mut off: usize = 0;
    while buf.len() - off >= 2
        invariant
            off <= buf@.len(),
            out@ + records_from(buf@, off as int) == records_from(buf@, 0),
        decreases buf@.len() - off,
    {
        let len = u16_from_le_bytes(slice_subrange(buf, off, off + 2)) as usize;
        if len == 0 || len > buf.len() - off {
            assert(records_from(buf@, buf@.len() as int) == Seq::<RouteRecord>::empty());
            off = buf.len();
        } else {
            let ghost out0 = out@;
            if len >= IFINFO2_LEN && buf[off + TYPE_AT] == RTM_IFINFO2 {
                let rec = record_in(buf, off);
                out.push(rec);
                assert(out0 + records_from(buf@, off as int) =~= out@ + records_from(buf@, (off + len) as int));
            }
            off = off + len;
        }
    }
    assert(out@ + records_from(buf@, off as int) =~= out@);
    out
}

/// The sightings of the records whose interface index could be given a
/// name (`names[i]` for `records[i]`); the others are passed over.
pub open spec fn named_records(records: Seq<RouteRecord>, names: Seq<Option<String>>) -> Seq<Sighting>
    decreases records.len(),
{
    if records.len() == 0 || names.len() == 0 {
        Seq::empty()
    } else {
        let before = named_records(records.drop_last(), names.drop_last());
        match names.last() {
            Some(n) => before.push(
                Sighting { name: n@, id: records.last().index as u64, reading: records.last().reading },
            ),
            None => before,
        }
    }
}

/// Pairs each record with the name its interface index resolved to, and
/// drops those whose index did not resolve. The index serves as handle.
pub fn observations_from_records(records: &Vec<RouteRecord>, names: &Vec<Option<String>>) -> (r: Vec<Observation>)
    requires
        records@.len() == names@.len(),
    ensures
        sightings(r@) == named_records(records@, names@),
{
    let mut out: Vec<Observation> = Vec::new();
    let mut i: usize = 0;
    assert(sightings(out@) =~= named_records(records@.take(0), names@.take(0)));
    while i < records.len()
        invariant
            i <= records@.len(),
            records@.len() == names@.len(),
            sightings(out@) == named_records(records@.take(i as int), names@.take(i as int)),
        decreases records@.len() - i,
    {
        let ghost before = out@;
        match &names[i] {
            Some(n) => {
                out.push(Observation { name: n.clone(), id: records[i].index as u64, reading: records[i].reading });
                assert(sightings(out@) =~= sightings(before).push(out@[out@.len() - 1]@));
            },
            None => {},
        }
        proof {
            let rt = records@.take(i + 1);
            let nt = names@.take(i + 1);
            assert(rt.drop_last() =~= records@.take(i as int));
            assert(nt.drop_last() =~= names@.take(i as int));
        }
        i += 1;
    }
    assert(records@.take(records@.len() as int) =~= records@);
    assert(names@.take(names@.len() as int) =~= names@);
    out
}

} // verus!
