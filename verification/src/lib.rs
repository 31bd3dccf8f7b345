//! Flow tracking and packet classification for a terminal network sniffer.
//!
//! The library decodes captured Ethernet frames into per-packet summaries,
//! folds them into bidirectional flows, and renders the text that the
//! sniffer shows and logs.  Capturing, printing and file output live in the
//! application around it.
pub mod protocols;
pub mod wire;
pub mod text;
pub mod capture;
pub mod flows;
pub mod output;
pub mod logger;
pub mod iface_names;
pub mod cli;

use vstd::prelude::*;

verus! {

} // verus!
