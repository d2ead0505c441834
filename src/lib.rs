use vstd::prelude::*;

pub mod entry;
pub mod error;
pub mod mpk;
pub mod panda;
pub mod text;

pub use text::{lift_option, parse_trace_file_text, parse_trace_line};

pub use entry::{get_trace_entry, EntryView, Metadata, MetadataView, TraceEntry, TraceEntryMPK, TracerType};
pub use error::{TraceError, TraceErrorView};
pub use panda::{
    decode_entry, encode_entry, parse_trace_file_bin_panda, parse_trace_file_bin_panda_framed,
    PandaTraceIterator,
};
pub use mpk::{parse_trace_file_bin_mpk, BinTraceIterator, DecodeState, MPKTraceEntry, StreamModel};
