use vstd::prelude::*;
use vstd::slice::slice_subrange;

use crate::counters::Counters;
use crate::registry::{sightings, Observation, Sighting};

verus! {

/// Media connection state of an adapter whose medium is disconnected.
pub const MEDIA_CONNECT_STATE_DISCONNECTED: u32 = 2;

/// One row of the interface table, with the fields that the scan reads.
/// `guid_data2`, `guid_data3` and `guid_data4` are the parts of the
/// interface's GUID that sibling aliases of one adapter share; `alias` is
/// the fixed-width, NUL-padded display name.
pub struct IfRow {
    pub luid: u64,
    pub guid_data2: u16,
    pub guid_data3: u16,
    pub guid_data4: [u8; 8],
    pub transmit_link_speed: u64,
    pub receive_link_speed: u64,
    pub media_connect_state: u32,
    pub physical_address_length: u32,
    pub alias: Vec<u16>,
    pub in_octets: u64,
    pub out_octets: u64,
    pub in_ucast_pkts: u64,
    pub in_nucast_pkts: u64,
    pub out_ucast_pkts: u64,
    pub out_nucast_pkts: u64,
    pub in_errors: u64,
    pub out_errors: u64,
}

/// The key that groups the rows of one physical adapter.
pub open spec fn group_key(r: IfRow) -> (u16, u16, Seq<u8>) {
    (r.guid_data2, r.guid_data3, r.guid_data4@)
}

/// A row that looks like hardware: it has a link speed, a medium that is not
/// disconnected, and a physical address.
pub open spec fn is_candidate(r: IfRow) -> bool {
    !(r.transmit_link_speed == 0 && r.receive_link_speed == 0)
        && r.media_connect_state != MEDIA_CONNECT_STATE_DISCONNECTED
        && r.physical_address_length != 0
}

/// How many rows of the table have the grouping key `key`.
pub open spec fn group_count(rows: Seq<IfRow>, key: (u16, u16, Seq<u8>)) -> nat
    decreases rows.len(),
{
    if rows.len() == 0 {
        0
    } else {
        group_count(rows.drop_last(), key) + if group_key(rows.last()) == key {
            1nat
        } else {
            0nat
        }
    }
}

/// Row `i` stands for a physical adapter: it is a candidate and no other
/// row of the whole table shares its grouping key.
pub open spec fn survives(rows: Seq<IfRow>, i: int) -> bool {
    is_candidate(rows[i]) && group_count(rows, group_key(rows[i])) == 1
}

/// The counters of a row; each packet counter is the sum of the unicast and
/// non-unicast counts, modulo 2^64.
pub open spec fn row_reading(r: IfRow) -> Counters {
    Counters {
        bytes_in: r.in_octets,
        bytes_out: r.out_octets,
        packets_in: r.in_ucast_pkts.wrapping_add(r.in_nucast_pkts),
        packets_out: r.out_ucast_pkts.wrapping_add(r.out_nucast_pkts),
        errors_in: r.in_errors,
        errors_out: r.out_errors,
    }
}

/// Position of the first NUL in `s`, or its length if there is none.
pub open spec fn first_nul(s: Seq<u16>) -> nat
    decreases s.len(),
{
    if s.len() == 0 || s[0] == 0 {
        0
    } else {
        1 + first_nul(s.drop_first())
    }
}

/// The code units of a NUL-padded name, up to its first NUL.
pub open spec fn name_units(s: Seq<u16>) -> Seq<u16> {
    s.take(first_nul(s) as int)
}

/// The text that a sequence of UTF-16 code units decodes to, or none where
/// it is not valid UTF-16.
pub uninterp spec fn utf16_text(units: Seq<u16>) -> Option<Seq<char>>;

/// Relies on `String::from_utf16`: it decodes valid UTF-16 and fails on
/// anything else, as a function of the code units alone; an empty slice
/// decodes to the empty string.
#[verifier::external_body]
fn decode_utf16(units: &[u16]) -> (r: Option<String>)
    ensures
        match r {
            Some(s) => utf16_text(units@) == Some(s@),
            None => utf16_text(units@) is None,
        },
        units@.len() == 0 ==> r is Some && r->0@.len() == 0,
{
    String::from_utf16(units).ok()
}

proof fn lemma_group_count_bound(rows: Seq<IfRow>, key: (u16, u16, Seq<u8>))
    ensures
        group_count(rows, key) <= rows.len(),
    decreases rows.len(),
{
    if rows.len() > 0 {
        lemma_group_count_bound(rows.drop_last(), key);
    }
}

/// Of three rows where the first two share a grouping key and the third has
/// its own, the first two never stand for a physical adapter, and the third
/// does exactly when it is a candidate.
pub proof fn lemma_shared_group_dropped(a: IfRow, b: IfRow, c: IfRow)
    requires
        group_key(a) == group_key(b),
        group_key(c) != group_key(a),
    ensures
        !survives(seq![a, b, c], 0),
        !survives(seq![a, b, c], 1),
        survives(seq![a, b, c], 2) == is_candidate(c),
{
    let rows = seq![a, b, c];
    let r2 = rows.drop_last();
    let r1 = r2.drop_last();
    let r0 = r1.drop_last();
    assert(r2 =~= seq![a, b]);
    assert(r1 =~= seq![a]);
    assert(r0 =~= Seq::<IfRow>::empty());
    assert(rows.last() == c && r2.last() == b && r1.last() == a);
    let ka = group_key(a);
    let kc = group_key(c);
    assert(group_count(r0, ka) == 0 && group_count(r0, kc) == 0);
    assert(group_count(r1, ka) == 1 && group_count(r1, kc) == 0);
    assert(group_count(r2, ka) == 2 && group_count(r2, kc) == 0);
    assert(group_count(rows, ka) == 2 && group_count(rows, kc) == 1);
    assert(rows[0] == a && rows[1] == b && rows[2] == c);
}

/// Whether two rows have the same grouping key.
pub fn same_group(a: &IfRow, b: &IfRow) -> (r: bool)
    ensures
        r == (group_key(*a) == group_key(*b)),
{
    if a.guid_data2 != b.guid_data2 || a.guid_data3 != b.guid_data3 {
        return false;
    }
    let mut i: usize = 0;
    while i < 8
        invariant
            i <= 8,
            a.guid_data4@.len() == 8,
            b.guid_data4@.len() == 8,
            forall|j: int| 0 <= j < i ==> a.guid_data4@[j] == b.guid_data4@[j],
        decreases 8 - i,
    {
        if a.guid_data4[i] != b.guid_data4[i] {
            assert(a.guid_data4@[i as int] != b.guid_data4@[i as int]);
            return false;
        }
        i += 1;
    }
    assert(a.guid_data4@ =~= b.guid_data4@);
    true
}

/// How many rows of the table share `row`'s grouping key.
pub fn count_group(rows: &Vec<IfRow>, row: &IfRow) -> (r: usize)
    ensures
        r == group_count(rows@, group_key(*row)),
{
    let ghost key = group_key(*row);
    let mut n: usize = 0;
    let mut i: usize = 0;
    assert(rows@.take(0) =~= Seq::<IfRow>::empty());
    while i < rows.len()
        invariant
            i <= rows@.len(),
            key == group_key(*row),
            n == group_count(rows@.take(i as int), key),
        decreases rows@.len() - i,
    {
        proof {
            lemma_group_count_bound(rows@.take(i as int), key);
            assert(rows@.take(i + 1).drop_last() =~= rows@.take(i as int));
            assert(rows@.take(i + 1).last() == rows@[i as int]);
        }
        if same_group(&rows[i], row) {
            n += 1;
        }
        i += 1;
    }
    assert(rows@.take(rows@.len() as int) =~= rows@);
    n
}

/// Whether row `i` of the table stands for a physical adapter.
pub fn keeps_row(rows: &Vec<IfRow>, i: usize) -> (r: bool)
    requires
        i < rows@.len(),
    ensures
        r == survives(rows@, i as int),
{
    let row = &rows[i];
    if (row.transmit_link_speed == 0 && row.receive_link_speed == 0)
        || row.media_connect_state == MEDIA_CONNECT_STATE_DISCONNECTED
        || row.physical_address_length == 0
    {
        return false;
    }
    count_group(rows, row) == 1
}

/// The counters that a row reports.
pub fn row_counters(row: &IfRow) -> (r: Counters)
    ensures
        r == row_reading(*row),
{
    Counters {
        bytes_in: row.in_octets,
        bytes_out: row.out_octets,
        packets_in: row.in_ucast_pkts.wrapping_add(row.in_nucast_pkts),
        packets_out: row.out_ucast_pkts.wrapping_add(row.out_nucast_pkts),
        errors_in: row.in_errors,
        errors_out: row.out_errors,
    }
}

/// The code units of the row's display name, up to its first NUL.
pub fn alias_units(row: &IfRow) -> (r: &[u16])
    ensures
        r@ == name_units(row.alias@),
{
    let s = row.alias.as_slice();
    let mut pos: usize = 0;
    assert(s@.subrange(0, s@.len() as int) =~= s@);
    while pos < s.len() && s[pos] != 0
        invariant
            pos <= s@.len(),
            first_nul(s@) == pos + first_nul(s@.subrange(pos as int, s@.len() as int)),
        decreases s@.len() - pos,
    {
        let ghost rest = s@.subrange(pos as int, s@.len() as int);
        assert(rest.drop_first() =~= s@.subrange(pos + 1, s@.len() as int));
        pos += 1;
    }
    proof {
        if pos < s@.len() {
            assert(s@.subrange(pos as int, s@.len() as int)[0] == 0);
        }
    }
    slice_subrange(s, 0, pos)
}

/// The observation of a row whose display name decoded to `name`.
pub fn row_observation(row: &IfRow, name: String) -> (r: Observation)
    ensures
        r@ == (Sighting { name: name@, id: row.luid, reading: row_reading(*row) }),
{
    Observation { name, id: row.luid, reading: row_counters(row) }
}

/// The sightings of the first `n` rows: each row that stands for a physical
/// adapter and whose display name decodes, in table order.
pub open spec fn table_upto(rows: Seq<IfRow>, n: int) -> Seq<Sighting>
    decreases n,
{
    if n <= 0 {
        Seq::empty()
    } else {
        let before = table_upto(rows, n - 1);
        let row = rows[n - 1];
        if survives(rows, n - 1) {
            match utf16_text(name_units(row.alias@)) {
                Some(t) => before.push(Sighting { name: t, id: row.luid, reading: row_reading(row) }),
                None => before,
            }
        } else {
            before
        }
    }
}

/// Filters the interface table down to one row per physical adapter and
/// turns each into an observation named by its display name. Rows whose
/// name does not decode are passed over.
pub fn table_observations(rows: &Vec<IfRow>) -> (r: Vec<Observation>)
    ensures
        sightings(r@) == table_upto(rows@, rows@.len() as int),
{
    let mut out: Vec<Observation> = Vec::new();
    let mut i: usize = 0;
    assert(sightings(out@) =~= Seq::<Sighting>::empty());
    while i < rows.len()
        invariant
            i <= rows@.len(),
            sightings(out@) == table_upto(rows@, i as int),
        decreases rows@.len() - i,
    {
        if keeps_row(rows, i) {
            let units = alias_units(&rows[i]);
            match decode_utf16(units) {
                Some(name) => {
                    let ghost before = out@;
                    let o = row_observation(&rows[i], name);
                    out.push(o);
                    assert(sightings(out@) =~= sightings(before).push(o@));
                },
                None => {},
            }
        }
        i += 1;
    }
    out
}

} // verus!
