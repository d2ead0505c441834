use vstd::prelude::*;

verus! {

/// Execution context attached to writes, fences and flushes.
#[derive(Debug, Clone, PartialEq, Eq)]
pub struct Metadata {
    /// current program counter
    pub pc: u64,
    /// currently in kernel mode?
    pub in_kernel: bool,
    /// kernel stack trace (frame pointer walk), innermost frame first
    pub kernel_stacktrace: Vec<u64>,
}

pub struct MetadataView {
    pub pc: u64,
    pub in_kernel: bool,
    pub kernel_stacktrace: Seq<u64>,
}

impl View for Metadata {
    type V = MetadataView;

    open spec fn view(&self) -> MetadataView {
        MetadataView { pc: self.pc, in_kernel: self.in_kernel, kernel_stacktrace: self.kernel_stacktrace@ }
    }
}

/// The metadata of a source that records no execution context.
pub open spec fn zero_metadata() -> MetadataView {
    MetadataView { pc: 0, in_kernel: false, kernel_stacktrace: Seq::empty() }
}

impl Metadata {
    pub fn zeroed() -> (r: Metadata)
        ensures
            r@ == zero_metadata(),
    {
        Metadata { pc: 0, in_kernel: false, kernel_stacktrace: Vec::new() }
    }
}

impl Default for Metadata {
    fn default() -> (r: Metadata)
        ensures
            r@ == zero_metadata(),
    {
        Metadata::zeroed()
    }
}

/// The tracer backend a binary stream comes from.
#[derive(Debug, Clone, Copy, PartialEq, Eq)]
pub enum TracerType {
    MPK,
    PANDA,
}

/// One logical memory operation of a trace.
#[derive(Debug, Clone, PartialEq, Eq)]
pub enum TraceEntry {
    Write {
        id: u64,
        address: u64,
        size: u64,
        content: Vec<u8>,
        non_temporal: bool,
        metadata: Metadata,
    },
    Fence {
        id: u64,
        mnemonic: String,
        metadata: Metadata,
    },
    Flush {
        id: u64,
        mnemonic: String,
        address: u64,
        metadata: Metadata,
    },
    Read {
        id: u64,
        address: u64,
        size: u64,
        content: Vec<u8>,
    },
    Hypercall {
        id: u64,
        action: String,
        value: String,
    },
}

/// The entries of a binary stream of the instrumentation tracer, as they
/// come off the wire; they carry the same operations as `TraceEntry`.
#[derive(Debug, Clone, PartialEq, Eq)]
pub enum TraceEntryMPK {
    Write {
        id: u64,
        address: u64,
        size: u64,
        content: Vec<u8>,
        non_temporal: bool,
        metadata: Metadata,
    },
    Fence {
        id: u64,
        mnemonic: String,
        metadata: Metadata,
    },
    Flush {
        id: u64,
        mnemonic: String,
        address: u64,
        metadata: Metadata,
    },
    Read {
        id: u64,
        address: u64,
        size: u64,
        content: Vec<u8>,
    },
    Hypercall {
        id: u64,
        action: String,
        value: String,
    },
}

/// Mathematical model of an entry: byte and text fields as sequences.
pub enum EntryView {
    Write {
        id: u64,
        address: u64,
        size: u64,
        content: Seq<u8>,
        non_temporal: bool,
        metadata: MetadataView,
    },
    Fence {
        id: u64,
        mnemonic: Seq<char>,
        metadata: MetadataView,
    },
    Flush {
        id: u64,
        mnemonic: Seq<char>,
        address: u64,
        metadata: MetadataView,
    },
    Read {
        id: u64,
        address: u64,
        size: u64,
        content: Seq<u8>,
    },
    Hypercall {
        id: u64,
        action: Seq<char>,
        value: Seq<char>,
    },
}

impl EntryView {
    pub open spec fn id(self) -> u64 {
        match self {
            EntryView::Write { id, .. } => id,
            EntryView::Fence { id, .. } => id,
            EntryView::Flush { id, .. } => id,
            EntryView::Read { id, .. } => id,
            EntryView::Hypercall { id, .. } => id,
        }
    }
}

impl View for TraceEntry {
    type V = EntryView;

    open spec fn view(&self) -> EntryView {
        match self {
            TraceEntry::Write { id, address, size, content, non_temporal, metadata } =>
                EntryView::Write {
                id: *id,
                address: *address,
                size: *size,
                content: content@,
                non_temporal: *non_temporal,
                metadata: metadata@,
            },
            TraceEntry::Fence { id, mnemonic, metadata } =>
                EntryView::Fence { id: *id, mnemonic: mnemonic@, metadata: metadata@ },
            TraceEntry::Flush { id, mnemonic, address, metadata } =>
                EntryView::Flush { id: *id, mnemonic: mnemonic@, address: *address, metadata: metadata@ },
            TraceEntry::Read { id, address, size, content } =>
                EntryView::Read { id: *id, address: *address, size: *size, content: content@ },
            TraceEntry::Hypercall { id, action, value } =>
                EntryView::Hypercall { id: *id, action: action@, value: value@ },
        }
    }
}

impl View for TraceEntryMPK {
    type V = EntryView;

    open spec fn view(&self) -> EntryView {
        match self {
            TraceEntryMPK::Write { id, address, size, content, non_temporal, metadata } =>
                EntryView::Write {
                id: *id,
                address: *address,
                size: *size,
                content: content@,
                non_temporal: *non_temporal,
                metadata: metadata@,
            },
            TraceEntryMPK::Fence { id, mnemonic, metadata } =>
                EntryView::Fence { id: *id, mnemonic: mnemonic@, metadata: metadata@ },
            TraceEntryMPK::Flush { id, mnemonic, address, metadata } =>
                EntryView::Flush { id: *id, mnemonic: mnemonic@, address: *address, metadata: metadata@ },
            TraceEntryMPK::Read { id, address, size, content } =>
                EntryView::Read { id: *id, address: *address, size: *size, content: content@ },
            TraceEntryMPK::Hypercall { id, action, value } =>
                EntryView::Hypercall { id: *id, action: action@, value: value@ },
        }
    }
}

/// Converts a wire-level entry of the instrumentation tracer into a trace entry.
pub fn get_trace_entry(entry: TraceEntryMPK) -> (r: TraceEntry)
    ensures
        r@ == entry@,
{
    match entry {
        TraceEntryMPK::Write { id, address, size, content, non_temporal, metadata } =>
            TraceEntry::Write { id, address, size, content, non_temporal, metadata },
        TraceEntryMPK::Fence { id, mnemonic, metadata } => TraceEntry::Fence { id, mnemonic, metadata },
        TraceEntryMPK::Flush { id, mnemonic, address, metadata } =>
            TraceEntry::Flush { id, mnemonic, address, metadata },
        TraceEntryMPK::Read { id, address, size, content } =>
            TraceEntry::Read { id, address, size, content },
        TraceEntryMPK::Hypercall { id, action, value } => TraceEntry::Hypercall { id, action, value },
    }
}

} // verus!
