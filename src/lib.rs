//! A registry of network interfaces and their traffic counters, fed by the
//! records and table rows that the operating system reports.
pub mod counters;
pub mod registry;
pub mod records;
pub mod table;
