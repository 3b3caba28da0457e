//! Release Radar: recent releases from the artists of a music library.
//!
//! The library decides; the host does. It says what to ask MusicBrainz and
//! when, which releases of an answer count, how they are kept, and what the
//! page shows. Reading the store, sending requests, waiting and encoding the
//! page are left to the caller.

pub mod calendar;
pub mod descriptor;
pub mod json;
pub mod lists;
pub mod pages;
pub mod plugin;
pub mod promises;
pub mod query;
pub mod release;
pub mod runs;
pub mod scan;
pub mod steps;
pub mod sweeps;
pub mod text;
