//! Gathering and displaying host facts next to a logo: text probes over the
//! contents of system files and command output, a report assembled from
//! them, and an escape-sequence-aware two-column layout.
pub mod format;
pub mod gpu;
pub mod layout;
pub mod probes;
pub mod report;
pub mod text;
