//! Control-loop core of a home HVAC thermostat daemon.
//!
//! The daemon decides, once per evaluation cycle, which command (off, heat or
//! cool) to send to the furnace relay. This crate holds the verified logic of
//! that daemon: the wire codecs, the topic router, the override arbitration,
//! the script-reload bookkeeping, the history deduplication and the restart
//! backoff. The unverified shell around it (broker I/O, the durable store and
//! the embedded script interpreter) lives outside and feeds plain values in.

pub mod ascii;
pub mod bus;
pub mod dayset;
pub mod decide;
pub mod history;
pub mod hvac;
pub mod json;
pub mod overrides;
pub mod probe;
pub mod report;
pub mod router;
pub mod script;
pub mod state;
pub mod supervisor;
pub mod temp;
pub mod textcheck;
pub mod timefmt;

pub use hvac::HvacRequest;
