use vstd::prelude::*;

verus! {

/// One reading of an interface's six traffic counters, as the operating
/// system reports them.
#[derive(Clone, Copy, Debug, PartialEq, Eq, Structural)]
pub struct Counters {
    pub bytes_in: u64,
    pub bytes_out: u64,
    pub packets_in: u64,
    pub packets_out: u64,
    pub errors_in: u64,
    pub errors_out: u64,
}

/// The change of one counter between two readings, clamped at zero when the
/// counter went down (a reset or a wraparound).
pub open spec fn delta(current: u64, previous: u64) -> u64 {
    if current >= previous {
        (current - previous) as u64
    } else {
        0
    }
}

/// Every counter at zero.
pub open spec fn zero_counters() -> Counters {
    Counters { bytes_in: 0, bytes_out: 0, packets_in: 0, packets_out: 0, errors_in: 0, errors_out: 0 }
}

/// The change of each counter from `previous` to `current`, clamped at zero.
pub open spec fn counters_delta(current: Counters, previous: Counters) -> Counters {
    Counters {
        bytes_in: delta(current.bytes_in, previous.bytes_in),
        bytes_out: delta(current.bytes_out, previous.bytes_out),
        packets_in: delta(current.packets_in, previous.packets_in),
        packets_out: delta(current.packets_out, previous.packets_out),
        errors_in: delta(current.errors_in, previous.errors_in),
        errors_out: delta(current.errors_out, previous.errors_out),
    }
}

/// Contains network information: the latest and the previous reading of one
/// interface, and the platform-local handle it was first seen with.
#[derive(Clone, Copy, Debug, PartialEq, Eq, Structural)]
pub struct NetworkData {
    pub id: u64,
    pub current: Counters,
    pub old: Counters,
}

impl NetworkData {
    /// The snapshot of an interface seen for the first time: the previous
    /// reading equals the current one, so every delta starts at zero.
    pub open spec fn spec_first(id: u64, reading: Counters) -> NetworkData {
        NetworkData { id, current: reading, old: reading }
    }

    /// The snapshot after one more reading: the former current reading
    /// becomes the previous one.
    pub open spec fn spec_rotate(self, reading: Counters) -> NetworkData {
        NetworkData { id: self.id, current: reading, old: self.current }
    }

    /// What the six delta getters report.
    pub open spec fn spec_deltas(self) -> Counters {
        counters_delta(self.current, self.old)
    }

    pub fn first(id: u64, reading: Counters) -> (r: NetworkData)
        ensures
            r == NetworkData::spec_first(id, reading),
    {
        NetworkData { id, current: reading, old: reading }
    }

    pub fn rotate(&self, reading: Counters) -> (r: NetworkData)
        ensures
            r == self.spec_rotate(reading),
    {
        NetworkData { id: self.id, current: reading, old: self.current }
    }

    /// The platform-local handle recorded when the interface was first seen.
    pub fn handle(&self) -> (r: u64)
        ensures
            r == self.id,
    {
        self.id
    }

    pub fn get_received(&self) -> (r: u64)
        ensures
            r == delta(self.current.bytes_in, self.old.bytes_in),
    {
        self.current.bytes_in.saturating_sub(self.old.bytes_in)
    }

    pub fn get_total_received(&self) -> (r: u64)
        ensures
            r == self.current.bytes_in,
    {
        self.current.bytes_in
    }

    pub fn get_transmitted(&self) -> (r: u64)
        ensures
            r == delta(self.current.bytes_out, self.old.bytes_out),
    {
        self.current.bytes_out.saturating_sub(self.old.bytes_out)
    }

    pub fn get_total_transmitted(&self) -> (r: u64)
        ensures
            r == self.current.bytes_out,
    {
        self.current.bytes_out
    }

    pub fn get_packets_received(&self) -> (r: u64)
        ensures
            r == delta(self.current.packets_in, self.old.packets_in),
    {
        self.current.packets_in.saturating_sub(self.old.packets_in)
    }

    pub fn get_total_packets_received(&self) -> (r: u64)
        ensures
            r == self.current.packets_in,
    {
        self.current.packets_in
    }

    pub fn get_packets_transmitted(&self) -> (r: u64)
        ensures
            r == delta(self.current.packets_out, self.old.packets_out),
    {
        self.current.packets_out.saturating_sub(self.old.packets_out)
    }

    pub fn get_total_packets_transmitted(&self) -> (r: u64)
        ensures
            r == self.current.packets_out,
    {
        self.current.packets_out
    }

    pub fn get_errors_on_received(&self) -> (r: u64)
        ensures
            r == delta(self.current.errors_in, self.old.errors_in),
    {
        self.current.errors_in.saturating_sub(self.old.errors_in)
    }

    pub fn get_total_errors_on_received(&self) -> (r: u64)
        ensures
            r == self.current.errors_in,
    {
        self.current.errors_in
    }

    pub fn get_errors_on_transmitted(&self) -> (r: u64)
        ensures
            r == delta(self.current.errors_out, self.old.errors_out),
    {
        self.current.errors_out.saturating_sub(self.old.errors_out)
    }

    pub fn get_total_errors_on_transmitted(&self) -> (r: u64)
        ensures
            r == self.current.errors_out,
    {
        self.current.errors_out
    }
}

} // verus!
